//! How many frames the parts of the audio codec yield.
//!
//! Where weights have the sizes that they declare and the parts fit together,
//! every part succeeds. The encoder keeps one position of as many as its strides
//! multiply to; the decoder puts as many in the place of one.

use crate::common::{causal_data, first_failure, stacked};
use crate::extents::{
    broadcast_to_has, constant_has, conv1d_has, conv_transpose1d_has, extents, has, products,
    reshape_has, reshape_merges, reshape_splits,
};
use crate::lazy::Tensor;
use crate::lazy_mimi::MimiModel;
use crate::lazy_mimi_conv::{edge, padded, LazyPadMode};
use crate::lazy_mimi_encodec::MimiEncodecModel;
use crate::lazy_mimi_quantization::{
    channels_mapped, mapped, ResidualVectorQuantizationWeights, ResidualVectorQuantizerWeights,
    SplitResidualVectorQuantizerWeights, VectorQuantizationWeights,
};
use crate::lazy_mimi_resampler::{ConvDownsample1dWeights, ConvTrUpsample1dWeights};
use crate::lazy_mimi_seanet::{
    activated, convs_value, decoder_stages, encoder_stages, residuals_value, spread_taps,
    LazyConv1dWeights, LazyConvTranspose1dWeights, SeaNetActivation, SeaNetConfig,
    SeaNetDecoderLayerWeights, SeaNetDecoderWeights, SeaNetEncoderLayerWeights,
    SeaNetEncoderWeights, SeaNetResnetBlockWeights,
};
use crate::lazy_mimi_transformer::{
    angle_table, angle_tensor, causal_square, heads_of, layers_value, rotated, spread,
    LayerNormWeights, MimiTransformerConfig, MimiTransformerLayerWeights,
    ProjectedTransformerWeights,
};
use crate::scalar::{inv_sqrt64, Data, Scalar, UnaryFn};
use crate::shape::{has_windows, ints, product, windows};
use vstd::prelude::*;

verus! {

/// A signal led by `left` more positions.
pub proof fn padded_has(x: Tensor, left: int, mode: LazyPadMode, b: int, c: int, t: int)
    requires
        has(x, seq![b, c, t]),
        t >= 1,
        left >= 0,
        t + left <= usize::MAX,
    ensures
        has(padded(x, left, 0, mode), seq![b, c, t + left]),
{
    broadcast use extents;

    if left > 0 {
        match mode {
            LazyPadMode::Constant => {
                assert(x.pad_with_zeros(2, left, 0).dims =~= seq![b, c, t + left]);
            },
            LazyPadMode::Replicate => {
                let first = x.narrow(2, 0, 1);
                assert(first.dims =~= seq![b, c, 1]);
                broadcast_to_has(first, seq![b, c, left]);
                let e = edge(x, 0, left);
                assert(e.dims.update(2, 0) =~= x.dims.update(2, 0));
                assert(e.concat(x, 2).dims =~= seq![b, c, t + left]);
            },
        }
    }
}

impl LazyConv1dWeights {
    /// The weights have the sizes that they declare, and the convolution reads
    /// `c` channels.
    pub open spec fn reads(&self, c: int) -> bool {
        &&& self.valid()
        &&& self.in_channels == c
        &&& c >= 1
        &&& self.out_channels >= 1
        &&& 1 <= self.stride <= self.reach()
        &&& self.per_group() * self.groups == c
        &&& self.out_channels % self.groups == 0
        &&& self.weight@.len() == self.rows() * self.kernel_size
        &&& self.bias matches Some(b) ==> b@.len() == self.out_channels
    }

    /// Signals of up to `t` positions can be padded.
    pub open spec fn covers(&self, t: int) -> bool {
        t + self.reach() <= usize::MAX
    }
}

/// A causal convolution succeeds and makes one position of every `stride`.
pub proof fn conv_succeeds(w: &LazyConv1dWeights, x: Tensor, mode: LazyPadMode, b: int, c: int, t: int)
    requires
        w.reads(c),
        w.covers(t),
        t >= w.stride,
        has(x, seq![b, c, t]),
    ensures
        has(w.value(x, mode), seq![b, w.out_channels as int, t / w.stride as int]),
        1 <= t / w.stride as int <= t,
        w.stride == 1 ==> t / w.stride as int == t,
{
    broadcast use extents;

    let r = w.reach();
    let o = w.out_channels as int;
    let p = w.per_group();
    let s = w.stride as int;
    assert((w.kernel_size - 1) * w.dilation >= 0) by (nonlinear_arith)
        requires
            w.kernel_size >= 1,
            w.dilation >= 1,
    ;
    assert(p >= 1) by (nonlinear_arith)
        requires
            p * w.groups == c,
            c >= 1,
            w.groups >= 1,
    ;
    padded_has(x, r - s, mode, b, c, t);
    products(o, p, r, 1, 1, 1);
    assert(o * p * r >= 0) by (nonlinear_arith)
        requires
            o >= 1,
            p >= 1,
            r >= 1,
    ;
    let taps = spread_taps(w.weight@, w.rows(), w.kernel_size as int, w.dilation as int);
    assert(taps.len() == w.rows() * r);
    constant_has(taps, seq![o, p, r]);
    assert(1 <= t / s <= t) by (nonlinear_arith)
        requires
            t >= s,
            s >= 1,
    ;
    if s == 1 {
        assert(t / 1 == t);
    }
    vstd::arithmetic::div_mod::lemma_div_minus_one(t, s);
    assert(t + (r - s) + 2 * 0 - r == -s + t);
    assert(has_windows(t + (r - s), r, s, 0));
    if let Some(bias) = w.bias {
        assert(has(Tensor::constant(bias@, seq![o]), seq![o]));
    }
    conv1d_has(padded(x, r - s, 0, mode), w.kernel(), w.bias_value(), s, 0, w.groups as int);
}

/// Channels after the first `n` convolutions.
pub open spec fn channels_after(convs: Seq<LazyConv1dWeights>, n: int, c: int) -> int {
    if n <= 0 {
        c
    } else {
        convs[n - 1].out_channels as int
    }
}

/// Convolution `i` of a block reads what the one before it yields and keeps all
/// positions.
pub open spec fn conv_follows(convs: Seq<LazyConv1dWeights>, i: int, c: int, t: int) -> bool {
    &&& convs[i].reads(channels_after(convs, i, c))
    &&& convs[i].covers(t)
    &&& convs[i].stride == 1
}

impl SeaNetResnetBlockWeights {
    /// The parts fit together, and channels and positions stay.
    pub open spec fn keeps(&self, c: int, t: int) -> bool {
        &&& forall|i: int| 0 <= i < self.convs@.len() ==> #[trigger] conv_follows(self.convs@, i, c, t)
        &&& channels_after(self.convs@, self.convs@.len() as int, c) == c
        &&& self.shortcut matches Some(s) ==> s.reads(c) && s.covers(t) && s.stride == 1
            && s.out_channels == c
    }
}

pub proof fn activated_keeps(x: Tensor, act: SeaNetActivation)
    requires
        !x.bad(),
    ensures
        has(activated(x, act), x.dims),
{
    broadcast use extents;

}

pub proof fn convs_have(
    convs: Seq<LazyConv1dWeights>,
    n: int,
    x: Tensor,
    act: SeaNetActivation,
    mode: LazyPadMode,
    b: int,
    c: int,
    t: int,
)
    requires
        forall|i: int| 0 <= i < convs.len() ==> #[trigger] conv_follows(convs, i, c, t),
        0 <= n <= convs.len(),
        t >= 1,
        has(x, seq![b, c, t]),
    ensures
        has(convs_value(convs, n, x, act, mode), seq![b, channels_after(convs, n, c), t]),
    decreases n,
{
    if n > 0 {
        convs_have(convs, n - 1, x, act, mode, b, c, t);
        let y = convs_value(convs, n - 1, x, act, mode);
        activated_keeps(y, act);
        assert(conv_follows(convs, n - 1, c, t));
        conv_succeeds(
            &convs[n - 1],
            activated(y, act),
            mode,
            b,
            channels_after(convs, n - 1, c),
            t,
        );
    }
}

pub proof fn residuals_have(
    blocks: Seq<SeaNetResnetBlockWeights>,
    n: int,
    x: Tensor,
    act: SeaNetActivation,
    mode: LazyPadMode,
    b: int,
    c: int,
    t: int,
)
    requires
        forall|i: int| 0 <= i < blocks.len() ==> (#[trigger] blocks[i]).keeps(c, t),
        0 <= n <= blocks.len(),
        t >= 1,
        has(x, seq![b, c, t]),
    ensures
        has(residuals_value(blocks, n, x, act, mode), seq![b, c, t]),
    decreases n,
{
    broadcast use extents;

    if n > 0 {
        residuals_have(blocks, n - 1, x, act, mode, b, c, t);
        let y = residuals_value(blocks, n - 1, x, act, mode);
        let w = blocks[n - 1];
        convs_have(w.convs@, w.convs@.len() as int, y, act, mode, b, c, t);
        if let Some(s) = w.shortcut {
            conv_succeeds(&s, y, mode, b, c, t);
        }
    }
}

/// Channels before encoder stage `i`.
pub open spec fn encoder_channels(layers: Seq<SeaNetEncoderLayerWeights>, i: int, c: int) -> int {
    if i <= 0 {
        c
    } else {
        layers[i - 1].downsample.out_channels as int
    }
}

/// Positions before encoder stage `i`.
pub open spec fn encoder_frames(layers: Seq<SeaNetEncoderLayerWeights>, i: int, t: int) -> int
    decreases i,
{
    if i <= 0 {
        t
    } else {
        encoder_frames(layers, i - 1, t) / layers[i - 1].downsample.stride as int
    }
}

/// Stage `i` fits the one before it.
pub open spec fn encoder_follows(layers: Seq<SeaNetEncoderLayerWeights>, i: int, c: int, t: int) -> bool {
    let ci = encoder_channels(layers, i, c);
    let ti = encoder_frames(layers, i, t);
    &&& forall|j: int|
        0 <= j < layers[i].residuals@.len() ==> (#[trigger] layers[i].residuals@[j]).keeps(ci, ti)
    &&& layers[i].downsample.reads(ci)
    &&& layers[i].downsample.covers(ti)
    &&& layers[i].downsample.stride <= ti
}

pub proof fn encoder_stages_have(
    layers: Seq<SeaNetEncoderLayerWeights>,
    n: int,
    x: Tensor,
    act: SeaNetActivation,
    mode: LazyPadMode,
    b: int,
    c: int,
    t: int,
)
    requires
        forall|i: int| 0 <= i < layers.len() ==> #[trigger] encoder_follows(layers, i, c, t),
        0 <= n <= layers.len(),
        t >= 1,
        has(x, seq![b, c, t]),
    ensures
        has(
            encoder_stages(layers, n, x, act, mode),
            seq![b, encoder_channels(layers, n, c), encoder_frames(layers, n, t)],
        ),
        1 <= encoder_frames(layers, n, t) <= t,
    decreases n,
{
    if n > 0 {
        encoder_stages_have(layers, n - 1, x, act, mode, b, c, t);
        assert(encoder_follows(layers, n - 1, c, t));
        let y = encoder_stages(layers, n - 1, x, act, mode);
        let w = layers[n - 1];
        let ci = encoder_channels(layers, n - 1, c);
        let ti = encoder_frames(layers, n - 1, t);
        residuals_have(w.residuals@, w.residuals@.len() as int, y, act, mode, b, ci, ti);
        let z = residuals_value(w.residuals@, w.residuals@.len() as int, y, act, mode);
        activated_keeps(z, act);
        conv_succeeds(&w.downsample, activated(z, act), mode, b, ci, ti);
    }
}

impl SeaNetEncoderWeights {
    /// Latent positions for `t` samples.
    pub open spec fn frames(&self, t: int) -> int {
        encoder_frames(self.layers@, self.layers@.len() as int, t)
    }

    /// All parts fit together for audio of `t` samples.
    pub open spec fn fits_together(&self, cfg: &SeaNetConfig, t: int) -> bool {
        let n = self.layers@.len() as int;
        let c = self.init_conv.out_channels as int;
        &&& self.init_conv.reads(cfg.channels as int)
        &&& self.init_conv.covers(t)
        &&& self.init_conv.stride == 1
        &&& forall|i: int| 0 <= i < n ==> #[trigger] encoder_follows(self.layers@, i, c, t)
        &&& self.final_conv.reads(encoder_channels(self.layers@, n, c))
        &&& self.final_conv.covers(self.frames(t))
        &&& self.final_conv.stride == 1
        &&& self.final_conv.out_channels == cfg.dimension
    }

    /// The strides of the first `i` stages multiplied.
    pub open spec fn hop(&self, i: int) -> int
        decreases i,
    {
        if i <= 0 {
            1
        } else {
            self.hop(i - 1) * self.layers@[i - 1].downsample.stride
        }
    }
}

/// Audio of `t` samples has as many latent positions as the product of the
/// strides goes into `t`.
pub proof fn encoder_frames_divide(w: &SeaNetEncoderWeights, i: int, t: int)
    requires
        0 <= i <= w.layers@.len(),
        t >= 0,
        forall|j: int| 0 <= j < w.layers@.len() ==> (#[trigger] w.layers@[j]).downsample.stride >= 1,
    ensures
        encoder_frames(w.layers@, i, t) == t / w.hop(i),
        w.hop(i) >= 1,
    decreases i,
{
    if i <= 0 {
        assert(t / 1 == t);
    } else {
        let s = w.layers@[i - 1].downsample.stride as int;
        assert(w.layers@[i - 1].downsample.stride >= 1);
        encoder_frames_divide(w, i - 1, t);
        let h = w.hop(i - 1);
        assert(h * s >= 1) by (nonlinear_arith)
            requires
                h >= 1,
                s >= 1,
        ;
        vstd::arithmetic::div_mod::lemma_div_denominator(t, h, s);
    }
}

/// Where all parts fit together, encoding audio `(b, channels, t)` succeeds, and
/// the latents are `(b, dimension, frames)`.
pub proof fn encoder_succeeds(w: &SeaNetEncoderWeights, cfg: &SeaNetConfig, audio: Tensor, b: int, t: int)
    requires
        w.fits_together(cfg, t),
        t >= 1,
        has(audio, seq![b, cfg.channels as int, t]),
    ensures
        has(w.value(cfg, audio), seq![b, cfg.dimension as int, w.frames(t)]),
        1 <= w.frames(t) <= t,
{
    let n = w.layers@.len() as int;
    let act = cfg.activation;
    let mode = cfg.pad_mode;
    let c = w.init_conv.out_channels as int;
    conv_succeeds(&w.init_conv, audio, mode, b, cfg.channels as int, t);
    let x = w.init_conv.value(audio, mode);
    encoder_stages_have(w.layers@, n, x, act, mode, b, c, t);
    let y = encoder_stages(w.layers@, n, x, act, mode);
    activated_keeps(y, act);
    conv_succeeds(
        &w.final_conv,
        activated(y, act),
        mode,
        b,
        encoder_channels(w.layers@, n, c),
        w.frames(t),
    );
}

impl LazyConvTranspose1dWeights {
    /// The weights have the sizes that they declare, and the convolution reads
    /// `c` channels.
    pub open spec fn reads(&self, c: int) -> bool {
        let per = self.out_channels as int / self.groups as int;
        &&& self.in_channels == c
        &&& c >= 1
        &&& self.out_channels >= 1
        &&& self.groups >= 1
        &&& c % self.groups as int == 0
        &&& per * self.groups == self.out_channels
        &&& self.kernel_size >= self.stride >= 1
        &&& c * per * self.kernel_size <= usize::MAX
        &&& self.weight@.len() == c * per * self.kernel_size
        &&& self.bias matches Some(b) ==> b@.len() == self.out_channels
    }

    /// Signals of `t` positions can be upsampled.
    pub open spec fn covers(&self, t: int) -> bool {
        (t - 1) * self.stride + self.kernel_size <= usize::MAX
    }
}

/// A transposed convolution succeeds and puts `stride` positions in the place of
/// one.
pub proof fn upsample_succeeds(w: &LazyConvTranspose1dWeights, x: Tensor, b: int, c: int, t: int)
    requires
        w.reads(c),
        w.covers(t),
        t >= 1,
        has(x, seq![b, c, t]),
    ensures
        has(w.value(x), seq![b, w.out_channels as int, t * w.stride]),
{
    broadcast use extents;

    let o = w.out_channels as int;
    let per = o / w.groups as int;
    let k = w.kernel_size as int;
    let s = w.stride as int;
    assert(per >= 1) by (nonlinear_arith)
        requires
            per * w.groups == o,
            o >= 1,
            w.groups >= 1,
    ;
    products(c, per, k, 1, 1, 1);
    constant_has(w.weight@, seq![c, per, k]);
    let kernel = Tensor::constant(w.weight@, seq![c, per, k]);
    conv_transpose1d_has(x, kernel, s, w.groups as int);
    let raw = x.conv_transpose1d(kernel, s, w.groups as int);
    let n = (t - 1) * s + k;
    assert(has(raw, seq![b, o, n]));
    assert((t - 1) * s == t * s - s && (t - 1) * s >= 0) by (nonlinear_arith)
        requires
            t >= 1,
            s >= 1,
    ;
    if let Some(bias) = w.bias {
        products(o, 1, 1, 1, 1, 1);
        products(1, o, 1, 1, 1, 1);
        let row = Tensor::constant(bias@, seq![o]);
        reshape_has(row, seq![1, o, 1]);
        broadcast_to_has(row.reshape(seq![1, o, 1]), seq![b, o, n]);
        let y = raw.add(row.reshape(seq![1, o, 1]).broadcast_to(seq![b, o, n]));
        assert(has(y, seq![b, o, n]));
        assert(y.narrow(2, 0, t * s).dims =~= seq![b, o, t * s]);
    } else {
        assert(raw.narrow(2, 0, t * s).dims =~= seq![b, o, t * s]);
    }
}

/// Channels before decoder stage `i`.
pub open spec fn decoder_channels(layers: Seq<SeaNetDecoderLayerWeights>, i: int, c: int) -> int {
    if i <= 0 {
        c
    } else {
        layers[i - 1].upsample.out_channels as int
    }
}

/// Positions before decoder stage `i`.
pub open spec fn decoder_frames(layers: Seq<SeaNetDecoderLayerWeights>, i: int, t: int) -> int
    decreases i,
{
    if i <= 0 {
        t
    } else {
        decoder_frames(layers, i - 1, t) * layers[i - 1].upsample.stride
    }
}

/// Stage `i` fits the one before it.
pub open spec fn decoder_follows(layers: Seq<SeaNetDecoderLayerWeights>, i: int, c: int, t: int) -> bool {
    let ci = decoder_channels(layers, i, c);
    let ti = decoder_frames(layers, i, t);
    let w = layers[i];
    &&& w.upsample.reads(ci)
    &&& w.upsample.covers(ti)
    &&& forall|j: int|
        0 <= j < w.residuals@.len() ==> (#[trigger] w.residuals@[j]).keeps(
            w.upsample.out_channels as int,
            ti * w.upsample.stride,
        )
}

pub proof fn decoder_stages_have(
    layers: Seq<SeaNetDecoderLayerWeights>,
    n: int,
    x: Tensor,
    act: SeaNetActivation,
    mode: LazyPadMode,
    b: int,
    c: int,
    t: int,
)
    requires
        forall|i: int| 0 <= i < layers.len() ==> #[trigger] decoder_follows(layers, i, c, t),
        0 <= n <= layers.len(),
        t >= 1,
        has(x, seq![b, c, t]),
    ensures
        has(
            decoder_stages(layers, n, x, act, mode),
            seq![b, decoder_channels(layers, n, c), decoder_frames(layers, n, t)],
        ),
        decoder_frames(layers, n, t) >= 1,
    decreases n,
{
    if n > 0 {
        decoder_stages_have(layers, n - 1, x, act, mode, b, c, t);
        assert(decoder_follows(layers, n - 1, c, t));
        let y = decoder_stages(layers, n - 1, x, act, mode);
        let w = layers[n - 1];
        let ci = decoder_channels(layers, n - 1, c);
        let ti = decoder_frames(layers, n - 1, t);
        let o = w.upsample.out_channels as int;
        assert(ti * w.upsample.stride >= 1) by (nonlinear_arith)
            requires
                ti >= 1,
                w.upsample.stride >= 1,
        ;
        activated_keeps(y, act);
        upsample_succeeds(&w.upsample, activated(y, act), b, ci, ti);
        residuals_have(
            w.residuals@,
            w.residuals@.len() as int,
            w.upsample.value(activated(y, act)),
            act,
            mode,
            b,
            o,
            ti * w.upsample.stride,
        );
    }
}

impl SeaNetDecoderWeights {
    /// Samples for `t` latent positions.
    pub open spec fn samples(&self, t: int) -> int {
        decoder_frames(self.layers@, self.layers@.len() as int, t)
    }

    /// All parts fit together for `t` latent positions.
    pub open spec fn fits_together(&self, cfg: &SeaNetConfig, t: int) -> bool {
        let n = self.layers@.len() as int;
        let c = self.init_conv.out_channels as int;
        &&& self.init_conv.reads(cfg.dimension as int)
        &&& self.init_conv.covers(t)
        &&& self.init_conv.stride == 1
        &&& forall|i: int| 0 <= i < n ==> #[trigger] decoder_follows(self.layers@, i, c, t)
        &&& self.final_conv.reads(decoder_channels(self.layers@, n, c))
        &&& self.final_conv.covers(self.samples(t))
        &&& self.final_conv.stride == 1
        &&& self.final_conv.out_channels == cfg.channels
    }

    /// The strides of the first `i` stages multiplied.
    pub open spec fn hop(&self, i: int) -> int
        decreases i,
    {
        if i <= 0 {
            1
        } else {
            self.hop(i - 1) * self.layers@[i - 1].upsample.stride
        }
    }
}

/// The decoder puts as many samples in the place of one latent position as its
/// strides multiply to.
pub proof fn decoder_frames_multiply(w: &SeaNetDecoderWeights, i: int, t: int)
    requires
        0 <= i <= w.layers@.len(),
    ensures
        decoder_frames(w.layers@, i, t) == t * w.hop(i),
    decreases i,
{
    if i > 0 {
        decoder_frames_multiply(w, i - 1, t);
        let h = w.hop(i - 1);
        let s = w.layers@[i - 1].upsample.stride as int;
        assert(t * h * s == t * (h * s)) by (nonlinear_arith);
    } else {
        assert(t * 1 == t);
    }
}

/// Where all parts fit together, decoding latents `(b, dimension, t)` succeeds,
/// and the audio is `(b, channels, samples)`.
pub proof fn decoder_succeeds(w: &SeaNetDecoderWeights, cfg: &SeaNetConfig, latent: Tensor, b: int, t: int)
    requires
        w.fits_together(cfg, t),
        t >= 1,
        has(latent, seq![b, cfg.dimension as int, t]),
    ensures
        has(w.value(cfg, latent), seq![b, cfg.channels as int, w.samples(t)]),
{
    let n = w.layers@.len() as int;
    let act = cfg.activation;
    let mode = cfg.pad_mode;
    let c = w.init_conv.out_channels as int;
    conv_succeeds(&w.init_conv, latent, mode, b, cfg.dimension as int, t);
    let x = w.init_conv.value(latent, mode);
    decoder_stages_have(w.layers@, n, x, act, mode, b, c, t);
    let y = decoder_stages(w.layers@, n, x, act, mode);
    activated_keeps(y, act);
    conv_succeeds(
        &w.final_conv,
        activated(y, act),
        mode,
        b,
        decoder_channels(w.layers@, n, c),
        w.samples(t),
    );
    if let Some(a) = cfg.final_activation {
        activated_keeps(w.final_conv.value(activated(y, act), mode), a);
    }
}

/// Downsampling keeps one of `stride` positions; what is over after whole groups
/// of `stride` positions is left out.
pub proof fn downsample_succeeds(w: &ConvDownsample1dWeights, x: Tensor, b: int, t: int)
    requires
        w.dim >= 1,
        w.stride >= 1,
        t >= w.stride,
        t + w.stride <= usize::MAX,
        w.dim * w.dim * (2 * w.stride) <= usize::MAX,
        w.weight@.len() == w.dim * w.dim * (2 * w.stride),
        has(x, seq![b, w.dim as int, t]),
    ensures
        has(w.value(x), seq![b, w.dim as int, t / w.stride as int]),
        t / w.stride as int >= 1,
{
    let s = w.stride as int;
    let d = w.dim as int;
    padded_has(x, s, LazyPadMode::Replicate, b, d, t);
    products(d, d, 2 * s, 1, 1, 1);
    constant_has(w.weight@, seq![d, d, 2 * s]);
    let q = t / s;
    vstd::arithmetic::div_mod::lemma_fundamental_div_mod(t, s);
    assert(t - s == (q - 1) * s + t % s && q >= 1) by (nonlinear_arith)
        requires
            t == s * q + t % s,
            0 <= t % s < s,
            t >= s,
            s >= 1,
    ;
    vstd::arithmetic::div_mod::lemma_fundamental_div_mod_converse(t - s, s, q - 1, t % s);
    assert(q <= t) by (nonlinear_arith)
        requires
            t == s * q + t % s,
            t % s >= 0,
            s >= 1,
            q >= 0,
    ;
    assert(t + s + 2 * 0 - 2 * s == t - s);
    assert(windows(t + s, 2 * s, s, 0) == q);
    let y = padded(x, s, 0, LazyPadMode::Replicate);
    conv1d_has(y, Tensor::constant(w.weight@, seq![d, d, 2 * s]), None, s, 0, 1);
}

/// Upsampling puts `stride` positions in the place of one.
pub proof fn resample_up_succeeds(w: &ConvTrUpsample1dWeights, x: Tensor, b: int, t: int)
    requires
        w.dim >= 1,
        w.stride >= 1,
        t >= 1,
        t * w.stride + w.stride <= usize::MAX,
        w.dim * (2 * w.stride) <= usize::MAX,
        w.weight@.len() == w.dim * (2 * w.stride),
        has(x, seq![b, w.dim as int, t]),
    ensures
        has(w.value(x), seq![b, w.dim as int, t * w.stride]),
{
    broadcast use extents;

    let s = w.stride as int;
    let d = w.dim as int;
    products(d, 1, 2 * s, 1, 1, 1);
    assert(d * 1 * (2 * s) == d * (2 * s)) by (nonlinear_arith);
    constant_has(w.weight@, seq![d, 1, 2 * s]);
    let kernel = Tensor::constant(w.weight@, seq![d, 1, 2 * s]);
    assert((t - 1) * s + 2 * s == t * s + s) by (nonlinear_arith);
    assert(d % d == 0) by (nonlinear_arith)
        requires
            d >= 1,
    ;
    conv_transpose1d_has(x, kernel, s, d);
    let y = x.conv_transpose1d(kernel, s, d);
    assert(has(y, seq![b, d, t * s + s]));
    assert(t * s >= 1) by (nonlinear_arith)
        requires
            t >= 1,
            s >= 1,
    ;
    assert(y.narrow(2, 0, t * s).dims =~= seq![b, d, t * s]);
}

impl MimiTransformerConfig {
    /// All sizes are positive, and for `b` signals of `t` positions every tensor
    /// can be addressed.
    pub open spec fn addressable(&self, b: int, t: int) -> bool {
        let d = self.d_model as int;
        &&& self.valid()
        &&& d >= 1
        &&& self.dim_feedforward >= 1
        &&& b >= 1
        &&& t >= 1
        &&& self.countable(b, t)
        &&& b * t * d <= usize::MAX
        &&& d * d <= usize::MAX
        &&& d * self.dim_feedforward <= usize::MAX
    }
}

impl MimiTransformerLayerWeights {
    /// Every weight has the size that the configuration declares.
    pub open spec fn sized(&self, cfg: &MimiTransformerConfig) -> bool {
        let d = cfg.d_model as int;
        let f = cfg.dim_feedforward as int;
        &&& self.norm1.gain@.len() == d
        &&& self.norm1.bias@.len() == d
        &&& self.norm2.gain@.len() == d
        &&& self.norm2.bias@.len() == d
        &&& self.attn.q_proj@.len() == d * d
        &&& self.attn.k_proj@.len() == d * d
        &&& self.attn.v_proj@.len() == d * d
        &&& self.attn.o_proj@.len() == d * d
        &&& self.mlp.fc1@.len() == d * f
        &&& self.mlp.fc2@.len() == f * d
        &&& self.layer_scale_1@.len() == d
        &&& self.layer_scale_2@.len() == d
    }
}

impl ProjectedTransformerWeights {
    /// Every weight has the size that the configuration declares.
    pub open spec fn sized(&self, cfg: &MimiTransformerConfig, input_dim: int) -> bool {
        let d = cfg.d_model as int;
        let layers = self.transformer.layers@;
        &&& forall|i: int| 0 <= i < layers.len() ==> (#[trigger] layers[i]).sized(cfg)
        &&& match self.input_proj {
            None => input_dim == d,
            Some(w) => 1 <= input_dim <= usize::MAX && input_dim * d <= usize::MAX && w@.len() == input_dim * d,
        }
        &&& forall|i: int| 0 <= i < self.output_projs@.len() ==> #[trigger] self.output_sized(cfg, i)
    }

    pub open spec fn output_sized(&self, cfg: &MimiTransformerConfig, i: int) -> bool {
        let d = cfg.d_model as int;
        let n = self.output_projs@[i].1 as int;
        match self.output_projs@[i].0 {
            None => n == d,
            Some(w) => n >= 1 && d * n <= usize::MAX && w@.len() == d * n,
        }
    }
}

/// One value for each channel, over all positions.
pub proof fn spread_has(v: Seq<Scalar>, d: int, x: Tensor, b: int, t: int)
    requires
        has(x, seq![b, t, d]),
        1 <= d <= usize::MAX,
        v.len() == d,
    ensures
        has(spread(v, d, x), seq![b, t, d]),
{
    products(d, 1, 1, 1, 1, 1);
    products(1, 1, d, 1, 1, 1);
    constant_has(v, seq![d]);
    let row = Tensor::constant(v, seq![d]);
    reshape_has(row, seq![1, 1, d]);
    broadcast_to_has(row.reshape(seq![1, 1, d]), seq![b, t, d]);
}

pub proof fn norm_has(w: &LayerNormWeights, x: Tensor, d: int, eps: Scalar, b: int, t: int)
    requires
        has(x, seq![b, t, d]),
        1 <= d <= usize::MAX,
        w.gain@.len() == d,
        w.bias@.len() == d,
    ensures
        has(w.value(x, d, eps), seq![b, t, d]),
{
    broadcast use extents;

    spread_has(w.gain@, d, x, b, t);
    spread_has(w.bias@, d, x, b, t);
}

/// Turned pairs keep their extents.
pub proof fn rotated_has(x: Tensor, cos: Tensor, sin: Tensor, b: int, heads: int, t: int, w: int)
    requires
        has(x, seq![b, heads, t, w]),
        has(cos, seq![t, w / 2]),
        has(sin, seq![t, w / 2]),
        b >= 1,
        heads >= 1,
        t >= 1,
        w >= 2,
        w % 2 == 0,
        b * heads * t * w <= usize::MAX,
    ensures
        has(rotated(x, cos, sin, b, heads, t, w), seq![b, heads, t, w]),
{
    broadcast use extents;

    let half = w / 2;
    let n = b * heads * t;
    assert(n >= 1) by (nonlinear_arith)
        requires
            n == b * heads * t,
            b >= 1,
            heads >= 1,
            t >= 1,
    ;
    assert(t <= n) by (nonlinear_arith)
        requires
            n == b * heads * t,
            b >= 1,
            heads >= 1,
            t >= 1,
    ;
    assert(n * half * 2 == n * w && n * half <= n * w && t * half <= n * w) by (nonlinear_arith)
        requires
            2 * half == w,
            half >= 1,
            1 <= t <= n,
    ;
    products(b, heads, t, w, 1, 1);
    products(b, heads, t, half, 2, 1);
    products(b, heads, t, half, 1, 1);
    products(t, half, 1, 1, 1, 1);
    products(1, 1, t, half, 1, 1);
    assert(1 * 1 * t * half == t * half);
    reshape_has(x, seq![b, heads, t, half, 2]);
    let pairs = x.reshape(seq![b, heads, t, half, 2]);
    let to = seq![b, heads, t, half];
    let e = pairs.narrow(4, 0, 1);
    let o = pairs.narrow(4, 1, 1);
    assert(e.dims =~= seq![b, heads, t, half, 1]);
    assert(o.dims =~= seq![b, heads, t, half, 1]);
    assert(n * half * 1 == n * half);
    reshape_has(e, to);
    reshape_has(o, to);
    reshape_has(cos, seq![1, 1, t, half]);
    reshape_has(sin, seq![1, 1, t, half]);
    broadcast_to_has(cos.reshape(seq![1, 1, t, half]), to);
    broadcast_to_has(sin.reshape(seq![1, 1, t, half]), to);
    let c = cos.reshape(seq![1, 1, t, half]).broadcast_to(to);
    let s = sin.reshape(seq![1, 1, t, half]).broadcast_to(to);
    let even = e.reshape(to);
    let odd = o.reshape(to);
    let ne = even.mul(c).sub(odd.mul(s));
    let no = even.mul(s).add(odd.mul(c));
    assert(has(ne, to));
    assert(has(no, to));
    assert(ne.unsqueeze(4).dims =~= seq![b, heads, t, half, 1]);
    assert(no.unsqueeze(4).dims =~= seq![b, heads, t, half, 1]);
    let both = ne.unsqueeze(4).concat(no.unsqueeze(4), 4);
    assert(both.dims =~= seq![b, heads, t, half, 2]);
    reshape_has(both, seq![b, heads, t, w]);
}

pub proof fn heads_of_has(x: Tensor, w: Seq<Scalar>, cfg: &MimiTransformerConfig, b: int, t: int)
    requires
        cfg.addressable(b, t),
        has(x, seq![b, t, cfg.d_model as int]),
        w.len() == cfg.d_model * cfg.d_model,
    ensures
        has(heads_of(x, w, cfg, b, t), seq![b, cfg.num_heads as int, t, cfg.width()]),
        cfg.width() >= 2,
{
    broadcast use extents;

    let d = cfg.d_model as int;
    let h = cfg.num_heads as int;
    let wd = cfg.width();
    assert(wd >= 1) by (nonlinear_arith)
        requires
            h * wd == d,
            d >= 1,
            h >= 1,
    ;
    reshape_splits(x.linear(w, d, d), b, t, h, wd);
}

/// A transformer layer keeps the extents of its signal.
#[verifier::rlimit(40)]
pub proof fn transformer_layer_has(
    w: &MimiTransformerLayerWeights,
    x: Tensor,
    cos: Tensor,
    sin: Tensor,
    mask: Tensor,
    cfg: &MimiTransformerConfig,
    b: int,
    t: int,
)
    requires
        cfg.addressable(b, t),
        w.sized(cfg),
        has(x, seq![b, t, cfg.d_model as int]),
        has(cos, seq![t, cfg.width() / 2]),
        has(sin, seq![t, cfg.width() / 2]),
        has(mask, seq![t, t]),
    ensures
        has(w.value(x, cos, sin, mask, cfg, b, t), seq![b, t, cfg.d_model as int]),
{
    broadcast use extents;

    let d = cfg.d_model as int;
    let h = cfg.num_heads as int;
    let wd = cfg.width();
    let f = cfg.dim_feedforward as int;
    let n = b * h;
    let a = &w.attn;
    norm_has(&w.norm1, x, d, cfg.layer_norm_eps, b, t);
    let y = w.norm1.value(x, d, cfg.layer_norm_eps);
    heads_of_has(y, a.q_proj@, cfg, b, t);
    heads_of_has(y, a.k_proj@, cfg, b, t);
    heads_of_has(y, a.v_proj@, cfg, b, t);
    assert(b * h * t * wd == b * t * d) by (nonlinear_arith)
        requires
            h * wd == d,
    ;
    let q = rotated(heads_of(y, a.q_proj@, cfg, b, t), cos, sin, b, h, t, wd);
    let k = rotated(heads_of(y, a.k_proj@, cfg, b, t), cos, sin, b, h, t, wd);
    let v = heads_of(y, a.v_proj@, cfg, b, t);
    rotated_has(heads_of(y, a.q_proj@, cfg, b, t), cos, sin, b, h, t, wd);
    rotated_has(heads_of(y, a.k_proj@, cfg, b, t), cos, sin, b, h, t, wd);
    products(b, h, t, wd, 1, 1);
    products(n, t, wd, 1, 1, 1);
    assert(n >= 1) by (nonlinear_arith)
        requires
            n == b * h,
            b >= 1,
            h >= 1,
    ;
    let flat = seq![n, t, wd];
    reshape_has(q, flat);
    reshape_has(k, flat);
    reshape_has(v, flat);
    let scores = q.reshape(flat).matmul(k.reshape(flat).permute(seq![0, 2, 1])).mul_scalar(
        inv_sqrt64(wd as usize),
    );
    assert(has(scores, seq![n, t, t]));
    products(t, t, 1, 1, 1, 1);
    products(1, t, t, 1, 1, 1);
    assert(1 * t * t == t * t);
    reshape_has(mask, seq![1, t, t]);
    broadcast_to_has(mask.reshape(seq![1, t, t]), seq![n, t, t]);
    let mixed = scores.add(
        mask.reshape(seq![1, t, t]).broadcast_to(seq![n, t, t]),
    ).softmax_last_dim().matmul(v.reshape(flat));
    assert(has(mixed, seq![n, t, wd]));
    reshape_has(mixed, seq![b, h, t, wd]);
    let rows = mixed.reshape(seq![b, h, t, wd]).permute(seq![0, 2, 1, 3]);
    assert(has(rows, seq![b, t, h, wd]));
    assert(b * t * (h * wd) == b * t * d) by (nonlinear_arith)
        requires
            h * wd == d,
    ;
    reshape_merges(rows, b, t, h, wd);
    let attn = a.value(y, cos, sin, mask, cfg, b, t);
    assert(has(attn, seq![b, t, d]));
    spread_has(w.layer_scale_1@, d, attn, b, t);
    let z = x.add(attn.mul(spread(w.layer_scale_1@, d, attn)));
    assert(has(z, seq![b, t, d]));
    norm_has(&w.norm2, z, d, cfg.layer_norm_eps, b, t);
    assert(f * d == d * f) by (nonlinear_arith);
    let m = w.mlp.value(w.norm2.value(z, d, cfg.layer_norm_eps), cfg);
    assert(has(m, seq![b, t, d]));
    spread_has(w.layer_scale_2@, d, m, b, t);
}

pub proof fn tables_have(f: UnaryFn, t: int, w: int, max_period: Scalar)
    requires
        t >= 1,
        w >= 2,
        t * (w / 2) <= usize::MAX,
    ensures
        has(angle_tensor(f, t, w, max_period), seq![t, w / 2]),
{
    products(t, w / 2, 1, 1, 1, 1);
    assert(t * (w / 2) >= 0) by (nonlinear_arith)
        requires
            t >= 1,
            w / 2 >= 1,
    ;
    constant_has(angle_table(f, t, w, max_period), seq![t, w / 2]);
}

pub proof fn transformer_layers_have(
    layers: Seq<MimiTransformerLayerWeights>,
    n: int,
    x: Tensor,
    cfg: &MimiTransformerConfig,
    b: int,
    t: int,
)
    requires
        cfg.addressable(b, t),
        0 <= n <= layers.len(),
        forall|i: int| 0 <= i < layers.len() ==> (#[trigger] layers[i]).sized(cfg),
        has(x, seq![b, t, cfg.d_model as int]),
    ensures
        has(layers_value(layers, n, x, cfg), seq![b, t, cfg.d_model as int]),
    decreases n,
{
    if n > 0 {
        transformer_layers_have(layers, n - 1, x, cfg, b, t);
        let wd = cfg.width();
        assert(wd >= 1) by (nonlinear_arith)
            requires
                cfg.num_heads * wd == cfg.d_model,
                cfg.d_model >= 1,
                cfg.num_heads >= 1,
        ;
        tables_have(UnaryFn::Cos, t, wd, cfg.max_period);
        tables_have(UnaryFn::Sin, t, wd, cfg.max_period);
        products(t, t, 1, 1, 1, 1);
        assert(t * t >= 0) by (nonlinear_arith);
        constant_has(causal_data(t), seq![t, t]);
        transformer_layer_has(
            &layers[n - 1],
            layers_value(layers, n - 1, x, cfg),
            angle_tensor(UnaryFn::Cos, t, wd, cfg.max_period),
            angle_tensor(UnaryFn::Sin, t, wd, cfg.max_period),
            causal_square(t),
            cfg,
            b,
            t,
        );
    }
}

/// The signal after all layers.
pub proof fn transformer_hidden_has(
    w: &ProjectedTransformerWeights,
    cfg: &MimiTransformerConfig,
    input_dim: int,
    xs: Tensor,
    b: int,
    t: int,
)
    requires
        cfg.addressable(b, t),
        w.sized(cfg, input_dim),
        cfg.conv_layout ==> has(xs, seq![b, input_dim, t]),
        !cfg.conv_layout ==> has(xs, seq![b, t, input_dim]),
    ensures
        has(w.hidden(cfg, input_dim, xs), seq![b, t, cfg.d_model as int]),
{
    broadcast use extents;

    let h = w.entry(cfg, input_dim, xs);
    assert(has(h, seq![b, t, cfg.d_model as int]));
    transformer_layers_have(
        w.transformer.layers@,
        w.transformer.layers@.len() as int,
        h,
        cfg,
        b,
        t,
    );
}

/// On weights of the declared sizes the transformer succeeds, and output `i` has
/// its declared width in the layout of the input.
pub proof fn transformer_output_succeeds(
    w: &ProjectedTransformerWeights,
    cfg: &MimiTransformerConfig,
    input_dim: int,
    xs: Tensor,
    i: int,
    b: int,
    t: int,
)
    requires
        cfg.addressable(b, t),
        w.sized(cfg, input_dim),
        cfg.conv_layout ==> has(xs, seq![b, input_dim, t]),
        !cfg.conv_layout ==> has(xs, seq![b, t, input_dim]),
        0 <= i < w.output_projs@.len(),
    ensures
        has(
            w.output(cfg, w.hidden(cfg, input_dim, xs), i),
            if cfg.conv_layout {
                seq![b, w.output_projs@[i].1 as int, t]
            } else {
                seq![b, t, w.output_projs@[i].1 as int]
            },
        ),
{
    broadcast use extents;

    transformer_hidden_has(w, cfg, input_dim, xs, b, t);
    assert(w.output_sized(cfg, i));
}

pub proof fn no_failure(ts: Seq<Tensor>)
    requires
        forall|i: int| 0 <= i < ts.len() ==> !(#[trigger] ts[i]).bad(),
    ensures
        first_failure(ts) is None,
    decreases ts.len(),
{
    if ts.len() > 0 {
        assert forall|i: int| 0 <= i < ts.len() - 1 implies !(#[trigger] ts.drop_last()[i]).bad() by {
            assert(!ts[i].bad());
        }
        no_failure(ts.drop_last());
        assert(!ts[ts.len() - 1].bad());
    }
}

/// On weights of the declared sizes the transformer yields all its outputs, and
/// the first one has its declared width.
pub proof fn transformer_succeeds(
    w: &ProjectedTransformerWeights,
    cfg: &MimiTransformerConfig,
    input_dim: int,
    xs: Tensor,
    b: int,
    t: int,
)
    requires
        cfg.addressable(b, t),
        w.sized(cfg, input_dim),
        cfg.conv_layout,
        has(xs, seq![b, input_dim, t]),
        w.output_projs@.len() > 0,
    ensures
        has(w.first_output(cfg, input_dim, xs), seq![b, w.output_projs@[0].1 as int, t]),
        first_failure(
            seq![w.hidden(cfg, input_dim, xs)] + w.outputs(cfg, w.hidden(cfg, input_dim, xs)),
        ) is None,
{
    let h = w.hidden(cfg, input_dim, xs);
    let all = seq![h] + w.outputs(cfg, h);
    transformer_hidden_has(w, cfg, input_dim, xs, b, t);
    assert forall|i: int| 0 <= i < all.len() implies !(#[trigger] all[i]).bad() by {
        if i > 0 {
            transformer_output_succeeds(w, cfg, input_dim, xs, i - 1, b, t);
        }
    }
    no_failure(all);
    transformer_output_succeeds(w, cfg, input_dim, xs, 0, b, t);
}

impl VectorQuantizationWeights {
    /// Every weight has the size that the layer declares, and for `b` signals of
    /// `t` positions every tensor can be addressed.
    pub open spec fn sized(&self, b: int, t: int) -> bool {
        let n = self.codebook.codebook_size as int;
        let cd = self.codebook.codebook_dim as int;
        let d = self.dim as int;
        &&& n >= 1
        &&& cd >= 1
        &&& d >= 1
        &&& b >= 1
        &&& t >= 1
        &&& n * cd <= usize::MAX
        &&& b * t * cd <= usize::MAX
        &&& self.codebook.embedding@.len() == n * cd
        &&& self.codebook.c2@.len() == n
        &&& match self.project_in_w {
            None => cd == d,
            Some(w) => {
                &&& cd * d <= usize::MAX
                &&& w@.len() == cd * d
                &&& self.project_in_b matches Some(v) ==> v@.len() == cd
            },
        }
        &&& match self.project_out_w {
            None => cd == d,
            Some(w) => {
                &&& d * cd <= usize::MAX
                &&& w@.len() == d * cd
                &&& self.project_out_b matches Some(v) ==> v@.len() == d
            },
        }
    }
}

pub proof fn mapped_has(
    x: Tensor,
    w: Option<Data>,
    bias: Option<Data>,
    fan_in: int,
    fan_out: int,
    b: int,
    t: int,
)
    requires
        has(x, seq![b, t, fan_in]),
        fan_in >= 1,
        1 <= fan_out <= usize::MAX,
        match w {
            None => fan_in == fan_out,
            Some(w) => {
                &&& fan_out * fan_in <= usize::MAX
                &&& w@.len() == fan_out * fan_in
                &&& bias matches Some(v) ==> v@.len() == fan_out
            },
        },
    ensures
        has(mapped(x, w, bias, fan_in, fan_out), seq![b, t, fan_out]),
{
    broadcast use extents;

    if let Some(w) = w {
        products(fan_out, fan_in, 1, 1, 1, 1);
        constant_has(w@, seq![fan_out, fan_in]);
        let y = x.matmul(Tensor::constant(w@, seq![fan_out, fan_in]).permute(seq![1, 0]));
        assert(has(y, seq![b, t, fan_out]));
    }
}

/// On weights of the declared sizes a signal `(b, dim, t)` has codes `(b, t)`.
pub proof fn vq_encode_succeeds(w: &VectorQuantizationWeights, xs: Tensor, b: int, t: int)
    requires
        w.sized(b, t),
        has(xs, seq![b, w.dim as int, t]),
    ensures
        has(w.encoded(xs), seq![b, t]),
{
    broadcast use extents;

    let n = w.codebook.codebook_size as int;
    let cd = w.codebook.codebook_dim as int;
    let d = w.dim as int;
    let m = b * t;
    assert(m >= 1 && m <= m * cd) by (nonlinear_arith)
        requires
            m == b * t,
            b >= 1,
            t >= 1,
            cd >= 1,
    ;
    let x = xs.permute(seq![0, 2, 1]);
    mapped_has(x, w.project_in_w, w.project_in_b, d, cd, b, t);
    let y = mapped(x, w.project_in_w, w.project_in_b, d, cd);
    products(b, t, cd, 1, 1, 1);
    products(m, cd, 1, 1, 1, 1);
    reshape_has(y, seq![m, cd]);
    let flat = y.reshape(seq![m, cd]);
    products(n, cd, 1, 1, 1, 1);
    constant_has(w.codebook.embedding@, seq![n, cd]);
    let dots = flat.matmul(w.codebook.rows().permute(seq![1, 0]));
    assert(has(dots, seq![m, n]));
    products(n, 1, 1, 1, 1, 1);
    products(1, n, 1, 1, 1, 1);
    assert(n <= n * cd) by (nonlinear_arith)
        requires
            n >= 1,
            cd >= 1,
    ;
    let c2 = Tensor::constant(w.codebook.c2@, seq![n]);
    reshape_has(c2, seq![1, n]);
    broadcast_to_has(c2.reshape(seq![1, n]), seq![m, n]);
    let scores = w.codebook.scores(flat);
    assert(has(scores, seq![m, n]));
    let codes = scores.argmin_dim(1);
    assert(codes.dims =~= seq![m]);
    products(m, 1, 1, 1, 1, 1);
    products(b, t, 1, 1, 1, 1);
    reshape_has(codes, seq![b, t]);
}

/// On weights of the declared sizes codes `(b, t)` give a signal `(b, dim, t)`.
pub proof fn vq_decode_succeeds(w: &VectorQuantizationWeights, codes: Tensor, b: int, t: int)
    requires
        w.sized(b, t),
        has(codes, seq![b, t]),
    ensures
        has(w.decoded(codes), seq![b, w.dim as int, t]),
{
    broadcast use extents;

    let n = w.codebook.codebook_size as int;
    let cd = w.codebook.codebook_dim as int;
    let d = w.dim as int;
    let m = b * t;
    assert(m >= 1 && m <= m * cd) by (nonlinear_arith)
        requires
            m == b * t,
            b >= 1,
            t >= 1,
            cd >= 1,
    ;
    products(b, t, 1, 1, 1, 1);
    products(m, 1, 1, 1, 1, 1);
    reshape_has(codes, seq![m]);
    products(n, cd, 1, 1, 1, 1);
    constant_has(w.codebook.embedding@, seq![n, cd]);
    let picked = w.codebook.decoded(codes.reshape(seq![m]));
    assert(picked.dims =~= seq![m, cd]);
    products(m, cd, 1, 1, 1, 1);
    products(b, t, cd, 1, 1, 1);
    reshape_has(picked, seq![b, t, cd]);
    mapped_has(
        picked.reshape(seq![b, t, cd]),
        w.project_out_w,
        w.project_out_b,
        cd,
        d,
        b,
        t,
    );
}

impl ResidualVectorQuantizationWeights {
    /// Every layer has its declared sizes and works at width `d`.
    pub open spec fn sized(&self, d: int, b: int, t: int) -> bool {
        &&& 1 <= self.layers@.len() <= usize::MAX
        &&& forall|i: int|
            0 <= i < self.layers@.len() ==> (#[trigger] self.layers@[i]).sized(b, t) && self.layers@[i].dim
                == d
    }
}

pub proof fn residual_has(w: &ResidualVectorQuantizationWeights, xs: Tensor, n: int, d: int, b: int, t: int)
    requires
        w.sized(d, b, t),
        0 <= n <= w.layers@.len(),
        has(xs, seq![b, d, t]),
    ensures
        has(w.residual(xs, n), seq![b, d, t]),
    decreases n,
{
    broadcast use extents;

    if n > 0 {
        residual_has(w, xs, n - 1, d, b, t);
        let left = w.residual(xs, n - 1);
        let layer = w.layers@[n - 1];
        assert(layer.sized(b, t));
        vq_encode_succeeds(&layer, left, b, t);
        vq_decode_succeeds(&layer, layer.encoded(left), b, t);
    }
}

/// Codes put side by side along a new first axis.
pub proof fn stacked_codes_have(ts: Seq<Tensor>, b: int, t: int)
    requires
        1 <= ts.len() <= usize::MAX,
        forall|i: int| 0 <= i < ts.len() ==> has(#[trigger] ts[i], seq![b, t]),
    ensures
        has(stacked(ts, 0), seq![ts.len() as int, b, t]),
    decreases ts.len(),
{
    broadcast use extents;

    let k = ts.len() as int;
    let last = ts[k - 1].unsqueeze(0);
    assert(last.dims =~= seq![1, b, t]);
    if k > 1 {
        let front = ts.drop_last();
        assert forall|i: int| 0 <= i < front.len() implies has(#[trigger] front[i], seq![b, t]) by {
            assert(front[i] == ts[i]);
        }
        stacked_codes_have(front, b, t);
        let a = stacked(front, 0);
        assert(a.dims.update(0, 0) =~= last.dims.update(0, 0));
        assert(a.concat(last, 0).dims =~= seq![k, b, t]);
    }
}

/// On weights of the declared sizes a signal `(b, d, t)` has codes
/// `(layers, b, t)`.
pub proof fn rvq_encode_succeeds(w: &ResidualVectorQuantizationWeights, xs: Tensor, d: int, b: int, t: int)
    requires
        w.sized(d, b, t),
        has(xs, seq![b, d, t]),
    ensures
        has(w.encoded(xs), seq![w.layers@.len() as int, b, t]),
{
    let n = w.layers@.len() as int;
    let codes = Seq::new(n as nat, |i: int| w.layer_codes(xs, i));
    assert forall|i: int| 0 <= i < n implies has(#[trigger] codes[i], seq![b, t]) by {
        residual_has(w, xs, i, d, b, t);
        assert(w.layers@[i].sized(b, t));
        vq_encode_succeeds(&w.layers@[i], w.residual(xs, i), b, t);
    }
    residual_has(w, xs, n, d, b, t);
    stacked_codes_have(codes, b, t);
}

pub proof fn summed_has(w: &ResidualVectorQuantizationWeights, codes: Tensor, n: int, d: int, b: int, t: int)
    requires
        w.sized(d, b, t),
        1 <= n <= w.layers@.len(),
        has(codes, seq![w.layers@.len() as int, b, t]),
        b * t <= usize::MAX,
    ensures
        has(w.summed(codes, n), seq![b, d, t]),
    decreases n,
{
    broadcast use extents;

    let i = n - 1;
    let slice = codes.narrow(0, i, 1);
    assert(slice.dims =~= seq![1, b, t]);
    assert(w.layers@[i].sized(b, t));
    products(1, b, t, 1, 1, 1);
    products(b, t, 1, 1, 1, 1);
    assert(1 * b * t == b * t);
    reshape_has(slice, seq![b, t]);
    vq_decode_succeeds(&w.layers@[i], slice.reshape(seq![b, t]), b, t);
    if n > 1 {
        summed_has(w, codes, n - 1, d, b, t);
    }
}

/// On weights of the declared sizes codes `(layers, b, t)` give a signal
/// `(b, d, t)`.
pub proof fn rvq_decode_succeeds(w: &ResidualVectorQuantizationWeights, codes: Tensor, d: int, b: int, t: int)
    requires
        w.sized(d, b, t),
        has(codes, seq![w.layers@.len() as int, b, t]),
        b * t <= usize::MAX,
    ensures
        has(w.decoded(codes), seq![b, d, t]),
{
    summed_has(w, codes, w.layers@.len() as int, d, b, t);
}

impl ResidualVectorQuantizerWeights {
    /// Every weight has its declared size; without a projection the widths agree.
    pub open spec fn sized(&self, b: int, t: int) -> bool {
        let d = self.dim as int;
        &&& d >= 1
        &&& self.input_dim >= 1
        &&& self.output_dim >= 1
        &&& self.vq.sized(d, b, t)
        &&& b * t <= usize::MAX
        &&& d * self.input_dim <= usize::MAX
        &&& self.output_dim * d <= usize::MAX
        &&& match self.input_proj_w {
            None => self.input_dim == d,
            Some(w) => w@.len() == d * self.input_dim,
        }
        &&& match self.output_proj_w {
            None => self.output_dim == d,
            Some(w) => w@.len() == self.output_dim * d,
        }
    }
}

pub proof fn channels_mapped_has(x: Tensor, w: Option<Data>, c_in: int, c_out: int, b: int, t: int)
    requires
        has(x, seq![b, c_in, t]),
        c_in >= 1,
        c_out >= 1,
        t >= 1,
        t <= usize::MAX,
        c_out * c_in <= usize::MAX,
        match w {
            None => c_in == c_out,
            Some(v) => v@.len() == c_out * c_in,
        },
    ensures
        has(channels_mapped(x, w, c_in, c_out), seq![b, c_out, t]),
{
    if let Some(v) = w {
        products(c_out, c_in, 1, 1, 1, 1);
        constant_has(v@, seq![c_out, c_in, 1]);
        assert((t - 1) / 1 == t - 1);
        assert(t + 2 * 0 - 1 == t - 1);
        conv1d_has(x, Tensor::constant(v@, seq![c_out, c_in, 1]), None, 1, 0, 1);
    }
}

/// On weights of the declared sizes a signal `(b, input_dim, t)` has codes
/// `(b, layers, t)`.
pub proof fn quantizer_encode_succeeds(w: &ResidualVectorQuantizerWeights, xs: Tensor, b: int, t: int)
    requires
        w.sized(b, t),
        b >= 1,
        t >= 1,
        t <= usize::MAX,
        has(xs, seq![b, w.input_dim as int, t]),
    ensures
        has(w.encoded(xs), seq![b, w.vq.layers@.len() as int, t]),
{
    broadcast use extents;

    channels_mapped_has(xs, w.input_proj_w, w.input_dim as int, w.dim as int, b, t);
    let x = channels_mapped(xs, w.input_proj_w, w.input_dim as int, w.dim as int);
    rvq_encode_succeeds(&w.vq, x, w.dim as int, b, t);
}

/// On weights of the declared sizes codes `(b, layers, t)` give a signal
/// `(b, output_dim, t)`.
pub proof fn quantizer_decode_succeeds(w: &ResidualVectorQuantizerWeights, codes: Tensor, b: int, t: int)
    requires
        w.sized(b, t),
        b >= 1,
        t >= 1,
        t <= usize::MAX,
        has(codes, seq![b, w.vq.layers@.len() as int, t]),
    ensures
        has(w.decoded(codes), seq![b, w.output_dim as int, t]),
{
    broadcast use extents;

    let turned = codes.permute(seq![1, 0, 2]);
    rvq_decode_succeeds(&w.vq, turned, w.dim as int, b, t);
    channels_mapped_has(
        w.vq.decoded(turned),
        w.output_proj_w,
        w.dim as int,
        w.output_dim as int,
        b,
        t,
    );
}

impl SplitResidualVectorQuantizerWeights {
    /// There is a codebook for each code, and both stacks read signals of width
    /// `d_in` and yield signals of width `d_out`.
    pub open spec fn sized(&self, d_in: int, d_out: int, b: int, t: int) -> bool {
        &&& self.valid()
        &&& self.n_q >= 1
        &&& b >= 1
        &&& 1 <= t <= usize::MAX
        &&& self.rvq_first.sized(b, t)
        &&& self.rvq_first.input_dim == d_in
        &&& self.rvq_first.output_dim == d_out
        &&& self.n_q > 1 ==> {
            &&& self.rvq_rest.sized(b, t)
            &&& self.rvq_rest.input_dim == d_in
            &&& self.rvq_rest.output_dim == d_out
        }
    }
}

/// On weights of the declared sizes a signal `(b, d_in, t)` has codes
/// `(b, n_q, t)`.
pub proof fn split_encode_succeeds(
    w: &SplitResidualVectorQuantizerWeights,
    xs: Tensor,
    d_in: int,
    d_out: int,
    b: int,
    t: int,
)
    requires
        w.sized(d_in, d_out, b, t),
        has(xs, seq![b, d_in, t]),
    ensures
        has(w.encoded(xs), seq![b, w.n_q as int, t]),
{
    broadcast use extents;

    quantizer_encode_succeeds(&w.rvq_first, xs, b, t);
    if w.n_q > 1 {
        quantizer_encode_succeeds(&w.rvq_rest, xs, b, t);
        let first = w.rvq_first.encoded(xs);
        let rest = w.rvq_rest.encoded(xs);
        assert(first.dims.update(1, 0) =~= rest.dims.update(1, 0));
        assert(first.concat(rest, 1).dims =~= seq![b, w.n_q as int, t]);
    }
}

/// On weights of the declared sizes codes `(b, n_q, t)` give a signal
/// `(b, d_out, t)`.
pub proof fn split_decode_succeeds(
    w: &SplitResidualVectorQuantizerWeights,
    codes: Tensor,
    d_in: int,
    d_out: int,
    b: int,
    t: int,
)
    requires
        w.sized(d_in, d_out, b, t),
        has(codes, seq![b, w.n_q as int, t]),
    ensures
        has(w.decoded(codes), seq![b, d_out, t]),
{
    broadcast use extents;

    let first = codes.narrow(1, 0, 1);
    assert(first.dims =~= seq![b, 1, t]);
    quantizer_decode_succeeds(&w.rvq_first, first, b, t);
    if w.n_q > 1 {
        let rest = codes.narrow(1, 1, w.n_q - 1);
        assert(rest.dims =~= seq![b, w.n_q - 1, t]);
        quantizer_decode_succeeds(&w.rvq_rest, rest, b, t);
    }
}

impl MimiModel {
    /// Latent positions for `t` samples.
    pub open spec fn latent_frames(&self, t: int) -> int {
        self.weights.encoder.frames(t)
    }

    /// The resampling kernels have the sizes that the stride declares.
    pub open spec fn resamples(&self) -> bool {
        let d = self.config.seanet.dimension as int;
        let s = self.weights.resampler_stride as int;
        &&& d >= 1
        &&& s >= 1
        &&& 2 * s <= usize::MAX
        &&& d * d * (2 * s) <= usize::MAX
        &&& d * (2 * s) <= usize::MAX
        &&& self.weights.downsample_weight@.len() == d * d * (2 * s)
        &&& self.weights.upsample_weight@.len() == d * (2 * s)
    }

    /// All parts of the encoder fit together for audio of `t` samples that give
    /// `f` latent positions, at least one for a frame of codes.
    pub open spec fn encodes(&self, t: int, f: int) -> bool {
        let d = self.config.seanet.dimension as int;
        let s = self.weights.resampler_stride as int;
        let w = self.weights.encoder_transformer;
        &&& self.resamples()
        &&& t >= 1
        &&& self.weights.encoder.fits_together(&self.config.seanet, t)
        &&& self.latent_frames(t) == f
        &&& f >= s
        &&& f + s <= usize::MAX
        &&& self.config.transformer.conv_layout
        &&& self.config.transformer.addressable(1, f)
        &&& w.sized(&self.config.transformer, d)
        &&& w.output_projs@.len() > 0
        &&& w.output_projs@[0].1 == d
        &&& self.weights.quantizer.sized(d, d, 1, f / s)
    }

    /// All parts of the decoder fit together for `n` frames of codes.
    pub open spec fn decodes(&self, n: int) -> bool {
        let d = self.config.seanet.dimension as int;
        let s = self.weights.resampler_stride as int;
        let w = self.weights.decoder_transformer;
        &&& self.resamples()
        &&& n >= 1
        &&& n * s + s <= usize::MAX
        &&& self.weights.quantizer.sized(d, d, 1, n)
        &&& self.config.transformer.conv_layout
        &&& self.config.transformer.addressable(1, n * s)
        &&& w.sized(&self.config.transformer, d)
        &&& w.output_projs@.len() > 0
        &&& w.output_projs@[0].1 == d
        &&& self.weights.decoder.fits_together(&self.config.seanet, n * s)
    }
}

/// Where all parts fit together, encoding audio `(1, channels, t)` succeeds, and
/// the codes are `(1, n_q, f / stride)` for the `f` latent positions.
pub proof fn mimi_encode_succeeds(model: &MimiModel, audio: Tensor, t: int, f: int)
    requires
        model.encodes(t, f),
        has(audio, seq![1, model.config.seanet.channels as int, t]),
    ensures
        has(
            model.encoded(audio),
            seq![
                1,
                model.weights.quantizer.n_q as int,
                f / model.weights.resampler_stride as int,
            ],
        ),
{
    let w = &model.weights;
    let d = model.config.seanet.dimension as int;
    let s = w.resampler_stride as int;
    encoder_succeeds(&w.encoder, &model.config.seanet, audio, 1, t);
    let latents = w.encoder.value(&model.config.seanet, audio);
    transformer_succeeds(&w.encoder_transformer, &model.config.transformer, d, latents, 1, f);
    let mixed = w.encoder_transformer.first_output(&model.config.transformer, d, latents);
    let down = ConvDownsample1dWeights {
        weight: w.downsample_weight,
        dim: model.config.seanet.dimension,
        stride: w.resampler_stride,
    };
    downsample_succeeds(&down, mixed, 1, f);
    split_encode_succeeds(&w.quantizer, model.downsampled(mixed), d, d, 1, f / s);
}

/// Where all parts fit together, decoding codes `(1, n_q, n)` succeeds, and the
/// audio is `(1, channels, n * stride * hop)`, with the product of the strides of
/// the decoder.
pub proof fn mimi_decode_succeeds(model: &MimiModel, codes: Tensor, n: int)
    requires
        model.decodes(n),
        has(codes, seq![1, model.weights.quantizer.n_q as int, n]),
    ensures
        has(
            model.decoded(codes),
            seq![
                1,
                model.config.seanet.channels as int,
                n * model.weights.resampler_stride * model.weights.decoder.hop(
                    model.weights.decoder.layers@.len() as int,
                ),
            ],
        ),
{
    let w = &model.weights;
    let d = model.config.seanet.dimension as int;
    let s = w.resampler_stride as int;
    split_decode_succeeds(&w.quantizer, codes, d, d, 1, n);
    let up = ConvTrUpsample1dWeights {
        weight: w.upsample_weight,
        dim: model.config.seanet.dimension,
        stride: w.resampler_stride,
    };
    resample_up_succeeds(&up, w.quantizer.decoded(codes), 1, n);
    let latents = model.upsampled(w.quantizer.decoded(codes));
    transformer_succeeds(&w.decoder_transformer, &model.config.transformer, d, latents, 1, n * s);
    let mixed = w.decoder_transformer.first_output(&model.config.transformer, d, latents);
    assert(n * s >= 1) by (nonlinear_arith)
        requires
            n >= 1,
            s >= 1,
    ;
    decoder_succeeds(&w.decoder, &model.config.seanet, mixed, 1, n * s);
    decoder_frames_multiply(&w.decoder, w.decoder.layers@.len() as int, n * s);
}

/// Audio of `t` samples has as many frames of codes as the product of all strides
/// goes into `t`; at least one frame takes a latent position for each stride.
pub proof fn frames_of_codes(model: &MimiModel, t: int)
    requires
        t >= 0,
        model.weights.resampler_stride >= 1,
        forall|j: int|
            0 <= j < model.weights.encoder.layers@.len() ==> (
            #[trigger] model.weights.encoder.layers@[j]).downsample.stride >= 1,
    ensures
        ({
            let s = model.weights.resampler_stride as int;
            let hop = model.weights.encoder.hop(model.weights.encoder.layers@.len() as int);
            &&& hop * s >= 1
            &&& model.latent_frames(t) == t / hop
            &&& model.latent_frames(t) / s == t / (hop * s)
            &&& t >= hop * s ==> model.latent_frames(t) >= s
        }),
{
    let s = model.weights.resampler_stride as int;
    let w = &model.weights.encoder;
    let hop = w.hop(w.layers@.len() as int);
    encoder_frames_divide(w, w.layers@.len() as int, t);
    vstd::arithmetic::div_mod::lemma_div_denominator(t, hop, s);
    assert(hop * s >= 1) by (nonlinear_arith)
        requires
            hop >= 1,
            s >= 1,
    ;
    if t >= hop * s {
        assert(s * hop == hop * s) by (nonlinear_arith);
        vstd::arithmetic::div_mod::lemma_div_by_multiple(s, hop);
        vstd::arithmetic::div_mod::lemma_div_is_ordered(s * hop, t, hop);
    }
}

/// The number of elements does not depend on where counting starts.
proof fn product_from_front(d: Seq<int>)
    requires
        d.len() > 0,
    ensures
        product(d) == d[0] * product(d.drop_first()),
    decreases d.len(),
{
    let rest = d.drop_first();
    if d.len() == 1 {
        assert(d.drop_last() =~= Seq::<int>::empty());
        assert(rest =~= Seq::<int>::empty());
        assert(product(Seq::<int>::empty()) == 1);
        assert(product(d) == 1 * d[0]);
    } else {
        let front = d.drop_last();
        product_from_front(front);
        assert(front.drop_first() =~= rest.drop_last());
        assert(rest.last() == d.last());
        let p = product(rest.drop_last());
        assert(d[0] * p * d.last() == d[0] * (p * d.last())) by (nonlinear_arith);
    }
}

impl SeaNetEncoderWeights {
    /// The stages go through the ratios backwards.
    pub open spec fn strides_are(&self, ratios: Seq<usize>) -> bool {
        let n = ratios.len();
        &&& self.layers@.len() == n
        &&& forall|i: int| 0 <= i < n ==> (#[trigger] self.layers@[i]).downsample.stride == ratios[n - 1 - i]
    }
}

impl SeaNetDecoderWeights {
    /// The stages go through the ratios in order.
    pub open spec fn strides_are(&self, ratios: Seq<usize>) -> bool {
        &&& self.layers@.len() == ratios.len()
        &&& forall|i: int| 0 <= i < ratios.len() ==> (#[trigger] self.layers@[i]).upsample.stride == ratios[i]
    }
}

/// The strides of the encoder multiply to the product of the ratios.
pub proof fn encoder_hop_is_product(w: &SeaNetEncoderWeights, ratios: Seq<usize>, i: int)
    requires
        w.strides_are(ratios),
        0 <= i <= ratios.len(),
    ensures
        w.hop(i) == product(ints(ratios).subrange(ratios.len() - i, ratios.len() as int)),
    decreases i,
{
    let n = ratios.len() as int;
    let d = ints(ratios).subrange(n - i, n);
    if i <= 0 {
        assert(d =~= Seq::<int>::empty());
    } else {
        encoder_hop_is_product(w, ratios, i - 1);
        product_from_front(d);
        assert(d.drop_first() =~= ints(ratios).subrange(n - (i - 1), n));
        let s = w.layers@[i - 1].downsample.stride as int;
        let h = w.hop(i - 1);
        assert(h * s == s * h) by (nonlinear_arith);
    }
}

/// The strides of the decoder multiply to the product of the ratios.
pub proof fn decoder_hop_is_product(w: &SeaNetDecoderWeights, ratios: Seq<usize>, i: int)
    requires
        w.strides_are(ratios),
        0 <= i <= ratios.len(),
    ensures
        w.hop(i) == product(ints(ratios).take(i)),
    decreases i,
{
    let d = ints(ratios).take(i);
    if i <= 0 {
        assert(d =~= Seq::<int>::empty());
    } else {
        decoder_hop_is_product(w, ratios, i - 1);
        assert(d.drop_last() =~= ints(ratios).take(i - 1));
        assert(w.layers@[i - 1].upsample.stride == ratios[i - 1]);
    }
}

/// The strides of the codec multiply to `total_audio_stride`: `t` samples give
/// `t / total_audio_stride` frames of codes.
pub proof fn codec_frames(model: &MimiEncodecModel, t: int)
    requires
        t >= 0,
        model.inner.weights.resampler_stride == model.config.stride(),
        model.config.stride() >= 1,
        model.inner.weights.encoder.strides_are(model.config.inner.seanet.ratios@),
        forall|j: int|
            0 <= j < model.config.inner.seanet.ratios@.len() ==> #[trigger] model.config.inner.seanet.ratios@[j]
                >= 1,
    ensures
        model.config.total_stride() >= 1,
        model.inner.latent_frames(t) / model.config.stride() == t / model.config.total_stride(),
        t >= model.config.total_stride() ==> model.inner.latent_frames(t) >= model.config.stride(),
{
    let ratios = model.config.inner.seanet.ratios@;
    let len = ratios.len() as int;
    let w = &model.inner.weights.encoder;
    encoder_hop_is_product(w, ratios, len);
    assert(ints(ratios).subrange(0, len) =~= ints(ratios));
    assert forall|j: int| 0 <= j < w.layers@.len() implies (#[trigger] w.layers@[j]).downsample.stride >= 1 by {
        assert(ratios[len - 1 - j] >= 1);
    }
    frames_of_codes(&model.inner, t);
}

/// Where all parts fit together, `t` samples give `t / total_audio_stride` frames
/// of codes.
pub proof fn codec_encode_succeeds(model: &MimiEncodecModel, pcm: Tensor, t: int)
    requires
        model.inner.weights.resampler_stride == model.config.stride(),
        model.config.stride() >= 1,
        model.inner.weights.encoder.strides_are(model.config.inner.seanet.ratios@),
        forall|j: int|
            0 <= j < model.config.inner.seanet.ratios@.len() ==> #[trigger] model.config.inner.seanet.ratios@[j]
                >= 1,
        model.inner.encodes(t, model.inner.latent_frames(t)),
        has(pcm, seq![1, model.inner.config.seanet.channels as int, t]),
    ensures
        has(
            model.inner.encoded(pcm),
            seq![
                1,
                model.inner.weights.quantizer.n_q as int,
                t / model.config.total_stride(),
            ],
        ),
{
    codec_frames(model, t);
    mimi_encode_succeeds(&model.inner, pcm, t, model.inner.latent_frames(t));
}

/// Where all parts fit together, `n` frames of codes give
/// `n * total_audio_stride` samples.
pub proof fn codec_decode_succeeds(model: &MimiEncodecModel, codes: Tensor, n: int)
    requires
        model.inner.weights.resampler_stride == model.config.stride(),
        model.inner.weights.decoder.strides_are(model.config.inner.seanet.ratios@),
        model.inner.decodes(n),
        has(codes, seq![1, model.inner.weights.quantizer.n_q as int, n]),
    ensures
        has(
            model.inner.decoded(codes),
            seq![
                1,
                model.inner.config.seanet.channels as int,
                n * model.config.total_stride(),
            ],
        ),
{
    let ratios = model.config.inner.seanet.ratios@;
    let len = ratios.len() as int;
    let s = model.config.stride();
    let h = model.config.hop();
    decoder_hop_is_product(&model.inner.weights.decoder, ratios, len);
    assert(ints(ratios).take(len) =~= ints(ratios));
    assert(n * s * h == n * (h * s)) by (nonlinear_arith);
    mimi_decode_succeeds(&model.inner, codes, n);
}

} // verus!
