//! Loaded weights of the audio codec fit together.
//!
//! A stack that was loaded without failure has kernels of the declared sizes, and
//! each part reads the channels that the part before it yields.

use crate::checkpoint::Checkpoint;
use crate::codec_extents::{
    channels_after, conv_follows, decoder_channels, decoder_follows, decoder_frames,
    encoder_channels, encoder_follows, encoder_frames, encoder_frames_divide,
};
use crate::error::Fault;
use crate::lazy_mimi::{MimiModel, MimiWeights};
use crate::lazy_mimi_quantization::{
    acoustic_layers, layer_prefix, layers_need, layers_need_keeps, EuclideanCodebookWeights,
    ResidualVectorQuantizerWeights, SplitResidualVectorQuantizerWeights,
};
use crate::lazy_mimi_seanet::{
    block_conv1, block_conv2, block_loaded, block_need, block_need_keeps, blocks_valid,
    decoder_stage_loaded, decoder_stages_need, encoder_stage_loaded, encoder_stages_need,
    kernel_data, kernel_need, layer_name, pointwise, power, power2_grows, residuals_loaded,
    residuals_need, residuals_need_keeps, transpose_loaded, transpose_need, ConvSpec,
    LazyConv1dWeights, LazyConvTranspose1dWeights, SeaNetConfig, SeaNetDecoderWeights,
    SeaNetEncoderWeights, SeaNetResnetBlockWeights,
};
use vstd::prelude::*;

verus! {

/// A loaded kernel has as many elements as it declares.
proof fn kernel_is_sized(st: &Checkpoint, e: Option<Fault>, p: Seq<char>, leading: int, inner: int)
    requires
        leading >= 0,
        inner >= 0,
        kernel_need(st, e, p, leading, inner) is None,
    ensures
        kernel_data(st, p, leading, inner).len() == leading * inner,
{
    assert(leading * inner >= 0) by (nonlinear_arith)
        requires
            leading >= 0,
            inner >= 0,
    ;
}

/// A loaded convolution reads the channels that it declares.
proof fn loaded_conv_reads(
    spec: ConvSpec,
    st: &Checkpoint,
    e: Option<Fault>,
    p: Seq<char>,
    w: &LazyConv1dWeights,
)
    requires
        spec.in_channels >= 1,
        spec.out_channels >= 1,
        1 <= spec.stride <= spec.kernel_size,
        spec.need(st, e, p) is None,
        spec.loaded(st, p, w),
        w.valid(),
    ensures
        w.reads(spec.in_channels as int),
        w.out_channels == spec.out_channels,
        w.stride == spec.stride,
{
    let c = spec.in_channels as int;
    let o = spec.out_channels as int;
    let k = spec.kernel_size as int;
    assert(c * k >= 0 && o * (c * k) == o * c * k) by (nonlinear_arith)
        requires
            c >= 0,
            k >= 0,
    ;
    kernel_is_sized(st, e, p, o, spec.inner());
    assert(w.reach() >= k) by (nonlinear_arith)
        requires
            w.reach() == (k - 1) * w.dilation + 1,
            k >= 1,
            w.dilation >= 1,
    ;
    assert(c / 1 == c);
    assert(o % 1 == 0);
}

/// A loaded transposed convolution reads the channels that it declares.
proof fn loaded_transpose_reads(
    st: &Checkpoint,
    e: Option<Fault>,
    p: Seq<char>,
    c: int,
    o: int,
    k: int,
    stride: int,
    w: &LazyConvTranspose1dWeights,
)
    requires
        c >= 1,
        o >= 1,
        k >= stride >= 1,
        c * (o * k) <= usize::MAX,
        transpose_need(st, e, p, c, o, k) is None,
        transpose_loaded(st, p, c, o, k, stride, w),
    ensures
        w.reads(c),
        w.out_channels == o,
        w.stride == stride,
{
    assert(o * k >= 0 && c * (o * k) == c * o * k) by (nonlinear_arith)
        requires
            o >= 0,
            k >= 0,
    ;
    kernel_is_sized(st, e, p, c, o * k);
    assert(o / 1 == o);
    assert(c % 1 == 0);
}

impl SeaNetResnetBlockWeights {
    /// Signals of up to `t` positions can be padded for every convolution.
    pub open spec fn spans(&self, t: int) -> bool {
        &&& forall|i: int| 0 <= i < self.convs@.len() ==> (#[trigger] self.convs@[i]).covers(t)
        &&& self.shortcut matches Some(s) ==> s.covers(t)
    }
}

pub open spec fn blocks_span(blocks: Seq<SeaNetResnetBlockWeights>, t: int) -> bool {
    forall|j: int| 0 <= j < blocks.len() ==> (#[trigger] blocks[j]).spans(t)
}

impl SeaNetConfig {
    /// No size is zero, and a residual block has a channel inside.
    pub open spec fn runs(&self) -> bool {
        &&& self.channels >= 1
        &&& self.dimension >= 1
        &&& self.n_filters >= self.compress >= 1
        &&& forall|i: int| 0 <= i < self.stages() ==> #[trigger] self.ratios@[i] >= 1
    }
}

/// A loaded residual block keeps its channels.
proof fn loaded_block_keeps(
    st: &Checkpoint,
    cfg: &SeaNetConfig,
    e: Option<Fault>,
    p: Seq<char>,
    dim: int,
    dilation: int,
    w: &SeaNetResnetBlockWeights,
    t: int,
)
    requires
        cfg.compress >= 1,
        cfg.compress <= dim <= usize::MAX,
        block_need(st, cfg, e, p, dim, dilation) is None,
        block_loaded(st, cfg, p, dim, dilation, w),
        w.valid(),
        w.spans(t),
    ensures
        w.keeps(dim, t),
{
    let inside = dim / cfg.compress as int;
    assert(1 <= inside <= dim) by (nonlinear_arith)
        requires
            inside == dim / cfg.compress as int,
            1 <= cfg.compress <= dim,
    ;
    let e1 = block_conv1(cfg, dim, dilation).need(st, e, p + ".block.1.conv"@);
    let e2 = block_conv2(cfg, dim).need(st, e1, p + ".block.3.conv"@);
    loaded_conv_reads(block_conv1(cfg, dim, dilation), st, e, p + ".block.1.conv"@, &w.convs@[0]);
    loaded_conv_reads(block_conv2(cfg, dim), st, e1, p + ".block.3.conv"@, &w.convs@[1]);
    if let Some(s) = w.shortcut {
        loaded_conv_reads(pointwise(dim, dim), st, e2, p + ".shortcut.conv"@, &s);
    }
    assert forall|i: int| 0 <= i < w.convs@.len() implies #[trigger] conv_follows(w.convs@, i, dim, t) by {
        if i == 0 {
            assert(channels_after(w.convs@, 0, dim) == dim);
        } else {
            assert(channels_after(w.convs@, 1, dim) == inside);
        }
    }
}

/// Where `n` residual blocks were loaded, each of them was.
proof fn each_residual_loads(
    st: &Checkpoint,
    cfg: &SeaNetConfig,
    e: Option<Fault>,
    p: Seq<char>,
    at: int,
    dim: int,
    n: int,
    j: int,
)
    requires
        0 <= j < n,
        residuals_need(st, cfg, e, p, at, dim, n) is None,
    ensures
        block_need(
            st,
            cfg,
            residuals_need(st, cfg, e, p, at, dim, j),
            layer_name(p, at + j),
            dim,
            power(cfg.dilation_base as int, j),
        ) is None,
    decreases n,
{
    assert(at + n - 1 == at + (n - 1));
    if j < n - 1 {
        let f = residuals_need(st, cfg, e, p, at, dim, n - 1);
        block_need_keeps(st, cfg, f, layer_name(p, at + n - 1), dim, power(cfg.dilation_base as int, n - 1));
        each_residual_loads(st, cfg, e, p, at, dim, n - 1, j);
    }
}

/// Loaded residual blocks keep their channels.
proof fn loaded_residuals_keep(
    st: &Checkpoint,
    cfg: &SeaNetConfig,
    e: Option<Fault>,
    p: Seq<char>,
    at: int,
    dim: int,
    blocks: Seq<SeaNetResnetBlockWeights>,
    t: int,
)
    requires
        cfg.compress >= 1,
        cfg.compress <= dim <= usize::MAX,
        residuals_need(st, cfg, e, p, at, dim, cfg.n_residual_layers as int) is None,
        residuals_loaded(st, cfg, p, at, dim, blocks),
        blocks_valid(blocks),
        blocks_span(blocks, t),
    ensures
        forall|j: int| 0 <= j < blocks.len() ==> (#[trigger] blocks[j]).keeps(dim, t),
{
    assert forall|j: int| 0 <= j < blocks.len() implies (#[trigger] blocks[j]).keeps(dim, t) by {
        let n = cfg.n_residual_layers as int;
        each_residual_loads(st, cfg, e, p, at, dim, n, j);
        loaded_block_keeps(
            st,
            cfg,
            residuals_need(st, cfg, e, p, at, dim, j),
            layer_name(p, at + j),
            dim,
            power(cfg.dilation_base as int, j),
            &blocks[j],
            t,
        );
    }
}

/// Where the first `n` encoder stages were loaded, each of them was, and so was
/// what comes before them.
proof fn each_encoder_stage_loads(
    st: &Checkpoint,
    cfg: &SeaNetConfig,
    e: Option<Fault>,
    p: Seq<char>,
    n: int,
    s: int,
)
    requires
        0 <= s < n,
        encoder_stages_need(st, cfg, e, p, n) is None,
    ensures
        encoder_stages_need(st, cfg, e, p, s + 1) is None,
        e is None,
    decreases n,
{
    let at = cfg.stage_at(n - 1);
    let f = encoder_stages_need(st, cfg, e, p, n - 1);
    residuals_need_keeps(st, cfg, f, p, at, cfg.encoder_dim(n - 1), cfg.n_residual_layers as int);
    if s < n - 1 {
        each_encoder_stage_loads(st, cfg, e, p, n - 1, s);
    } else if s > 0 {
        each_encoder_stage_loads(st, cfg, e, p, n - 1, 0);
    }
}

/// Channels double from one encoder stage to the next.
proof fn encoder_channels_double(cfg: &SeaNetConfig, s: int)
    requires
        s >= 0,
    ensures
        cfg.encoder_dim(s + 1) == 2 * cfg.encoder_dim(s),
        cfg.encoder_dim(s) >= cfg.n_filters,
{
    power2_grows(s);
    let f = cfg.n_filters as int;
    let a = power(2, s);
    assert(2 * a * f == 2 * (a * f) && a * f >= f) by (nonlinear_arith)
        requires
            a >= 1,
            f >= 0,
    ;
}

impl SeaNetEncoderWeights {
    /// Signals of up to `t` positions can be padded for every convolution.
    pub open spec fn spans(&self, t: int) -> bool {
        &&& self.init_conv.covers(t)
        &&& forall|i: int|
            0 <= i < self.layers@.len() ==> blocks_span((#[trigger] self.layers@[i]).residuals@, t)
                && self.layers@[i].downsample.covers(t)
        &&& self.final_conv.covers(t)
    }
}

/// A shorter signal can be padded too.
proof fn blocks_span_less(blocks: Seq<SeaNetResnetBlockWeights>, t: int, u: int)
    requires
        blocks_span(blocks, t),
        u <= t,
    ensures
        blocks_span(blocks, u),
{
}

/// Audio of at least as many samples as the strides multiply to leaves every
/// stage enough positions for its stride, and none more than there are samples.
proof fn encoder_frames_suffice(w: &SeaNetEncoderWeights, i: int, t: int)
    requires
        0 <= i <= w.layers@.len(),
        t >= w.hop(w.layers@.len() as int),
        forall|s: int| 0 <= s < w.layers@.len() ==> (#[trigger] w.layers@[s]).downsample.stride >= 1,
    ensures
        1 <= encoder_frames(w.layers@, i, t) <= t,
        i < w.layers@.len() ==> encoder_frames(w.layers@, i, t) >= w.layers@[i].downsample.stride,
{
    let n = w.layers@.len() as int;
    encoder_frames_divide(w, n, 0);
    encoder_frames_divide(w, i, t);
    hops_grow(w, i);
    let h = w.hop(i);
    assert(1 <= t / h <= t) by (nonlinear_arith)
        requires
            1 <= h <= t,
    ;
    if i < n {
        let s = w.layers@[i].downsample.stride as int;
        hops_grow(w, i + 1);
        assert(s * h == h * s) by (nonlinear_arith);
        vstd::arithmetic::div_mod::lemma_div_by_multiple(s, h);
        vstd::arithmetic::div_mod::lemma_div_is_ordered(s * h, t, h);
    }
}

/// More strides do not multiply to less.
proof fn hops_grow(w: &SeaNetEncoderWeights, i: int)
    requires
        0 <= i <= w.layers@.len(),
        forall|s: int| 0 <= s < w.layers@.len() ==> (#[trigger] w.layers@[s]).downsample.stride >= 1,
    ensures
        1 <= w.hop(i) <= w.hop(w.layers@.len() as int),
    decreases w.layers@.len() - i,
{
    encoder_frames_divide(w, i, 0);
    if i < w.layers@.len() {
        hops_grow(w, i + 1);
        let h = w.hop(i);
        let s = w.layers@[i].downsample.stride as int;
        assert(h * s >= h) by (nonlinear_arith)
            requires
                h >= 1,
                s >= 1,
        ;
    }
}

proof fn encoder_stage_follows(
    w: &SeaNetEncoderWeights,
    st: &Checkpoint,
    p: Seq<char>,
    cfg: &SeaNetConfig,
    e: Option<Fault>,
    t: int,
    c: int,
    i: int,
)
    requires
        cfg.encoder_loadable(),
        cfg.runs(),
        0 <= i < cfg.stages(),
        encoder_stages_need(st, cfg, e, p, cfg.stages()) is None,
        w.loaded(st, p, cfg),
        w.valid(),
        w.spans(t),
        t >= w.hop(w.layers@.len() as int),
        encoder_channels(w.layers@, i, c) == cfg.encoder_dim(i),
        forall|s: int| 0 <= s < w.layers@.len() ==> (#[trigger] w.layers@[s]).downsample.stride >= 1,
    ensures
        encoder_follows(w.layers@, i, c, t),
{
    let layer = w.layers@[i];
    let dim = cfg.encoder_dim(i);
    let at = cfg.stage_at(i);
    let res = cfg.n_residual_layers as int;
    let u = encoder_frames(w.layers@, i, t);
    encoder_frames_suffice(w, i, t);
    encoder_channels_double(cfg, i);
    assert(cfg.encoder_dim(i) * 2 <= usize::MAX);
    each_encoder_stage_loads(st, cfg, e, p, cfg.stages(), i);
    let f = encoder_stages_need(st, cfg, e, p, i);
    let g = residuals_need(st, cfg, f, p, at, dim, res);
    assert(encoder_stage_loaded(st, cfg, p, i, &layer));
    assert(cfg.encoder_down(i).need(st, g, layer_name(p, at + res + 1) + ".conv"@) is None);
    blocks_span_less(layer.residuals@, t, u);
    loaded_residuals_keep(st, cfg, f, p, at, dim, layer.residuals@, u);
    loaded_conv_reads(
        cfg.encoder_down(i),
        st,
        g,
        layer_name(p, at + res + 1) + ".conv"@,
        &layer.downsample,
    );
}

/// An encoder that was loaded fits together, so that coding over it succeeds.
pub proof fn loaded_encoder_fits(
    w: &SeaNetEncoderWeights,
    st: &Checkpoint,
    p: Seq<char>,
    cfg: &SeaNetConfig,
    t: int,
)
    requires
        cfg.encoder_loadable(),
        cfg.runs(),
        SeaNetEncoderWeights::load_failure(st, p, cfg) is None,
        w.loaded(st, p, cfg),
        w.valid(),
        w.spans(t),
        t >= w.hop(w.layers@.len() as int),
    ensures
        w.fits_together(cfg, t),
        t >= 1,
{
    let n = cfg.stages();
    let name = layer_name(p, 0) + ".conv"@;
    let e = cfg.encoder_init().need(st, None, name);
    let c = w.init_conv.out_channels as int;
    assert(encoder_stages_need(st, cfg, e, p, n) is None);
    if n > 0 {
        each_encoder_stage_loads(st, cfg, e, p, n, 0);
    }
    loaded_conv_reads(cfg.encoder_init(), st, None, name, &w.init_conv);
    assert(power(2, 0) == 1);
    assert(cfg.encoder_dim(0) == cfg.n_filters);
    assert forall|i: int| 0 <= i <= n implies #[trigger] encoder_channels(w.layers@, i, c)
        == cfg.encoder_dim(i) by {
        if i > 0 {
            encoder_channels_double(cfg, i - 1);
            assert(cfg.encoder_dim(i - 1) * 2 <= usize::MAX);
            assert(encoder_stage_loaded(st, cfg, p, i - 1, &w.layers@[i - 1]));
        }
    }
    assert forall|i: int| 0 <= i < n implies (#[trigger] w.layers@[i]).downsample.stride >= 1 by {
        assert(encoder_stage_loaded(st, cfg, p, i, &w.layers@[i]));
        assert(cfg.encoder_ratio(i) >= 1);
    }
    encoder_frames_divide(w, n, 0);
    assert forall|i: int| 0 <= i < n implies #[trigger] encoder_follows(w.layers@, i, c, t) by {
        encoder_stage_follows(w, st, p, cfg, e, t, c, i);
    }
    encoder_frames_suffice(w, n, t);
    encoder_channels_double(cfg, n);
    assert(encoder_channels(w.layers@, n, c) == cfg.encoder_dim(n));
    let last = layer_name(p, cfg.stage_at(n) + 1) + ".conv"@;
    loaded_conv_reads(cfg.encoder_last(), st, encoder_stages_need(st, cfg, e, p, n), last, &w.final_conv);
}

/// Where the first `n` decoder stages were loaded, each of them was, and so was
/// what comes before them.
proof fn each_decoder_stage_loads(
    st: &Checkpoint,
    cfg: &SeaNetConfig,
    e: Option<Fault>,
    p: Seq<char>,
    n: int,
    s: int,
)
    requires
        0 <= s < n,
        decoder_stages_need(st, cfg, e, p, n) is None,
    ensures
        decoder_stages_need(st, cfg, e, p, s + 1) is None,
        e is None,
    decreases n,
{
    let at = cfg.stage_at(n - 1);
    let dim = cfg.decoder_dim(n - 1);
    let k = cfg.ratios@[n - 1] * 2;
    let f = decoder_stages_need(st, cfg, e, p, n - 1);
    let g = transpose_need(st, f, layer_name(p, at + 1) + ".conv"@, dim, dim / 2, k);
    residuals_need_keeps(st, cfg, g, p, at + 2, dim / 2, cfg.n_residual_layers as int);
    if s < n - 1 {
        each_decoder_stage_loads(st, cfg, e, p, n - 1, s);
    } else if s > 0 {
        each_decoder_stage_loads(st, cfg, e, p, n - 1, 0);
    }
}

/// Channels halve from one decoder stage to the next.
proof fn decoder_channels_halve(cfg: &SeaNetConfig, s: int)
    requires
        0 <= s < cfg.stages(),
    ensures
        cfg.decoder_dim(s) == 2 * cfg.decoder_dim(s + 1),
        cfg.decoder_dim(s) / 2 == cfg.decoder_dim(s + 1),
        cfg.decoder_dim(s + 1) >= cfg.n_filters,
{
    power2_grows(cfg.stages() - s - 1);
    let f = cfg.n_filters as int;
    let a = power(2, cfg.stages() - s - 1);
    assert(cfg.stages() - (s + 1) == cfg.stages() - s - 1);
    assert(2 * a * f == 2 * (a * f) && a * f >= f) by (nonlinear_arith)
        requires
            a >= 1,
            f >= 0,
    ;
}

impl SeaNetDecoderWeights {
    /// Signals of `t` latent positions can be upsampled and padded for every
    /// convolution.
    pub open spec fn spans(&self, t: int) -> bool {
        let long = self.samples(t);
        &&& self.init_conv.covers(t)
        &&& forall|i: int|
            0 <= i < self.layers@.len() ==> blocks_span((#[trigger] self.layers@[i]).residuals@, long)
                && long + self.layers@[i].upsample.kernel_size <= usize::MAX
        &&& self.final_conv.covers(long)
    }
}

/// A stage of the decoder never yields fewer positions than it reads.
proof fn decoder_frames_grow(w: &SeaNetDecoderWeights, i: int, j: int, t: int)
    requires
        0 <= i <= j <= w.layers@.len(),
        t >= 1,
        forall|s: int| 0 <= s < w.layers@.len() ==> (#[trigger] w.layers@[s]).upsample.stride >= 1,
    ensures
        1 <= decoder_frames(w.layers@, i, t) <= decoder_frames(w.layers@, j, t),
    decreases j,
{
    if j > 0 {
        let k = if i < j {
            i
        } else {
            i - 1
        };
        decoder_frames_grow(w, k, j - 1, t);
        let n = decoder_frames(w.layers@, j - 1, t);
        let s = w.layers@[j - 1].upsample.stride as int;
        assert(n * s >= n) by (nonlinear_arith)
            requires
                n >= 1,
                s >= 1,
        ;
    }
}

proof fn decoder_stage_follows(
    w: &SeaNetDecoderWeights,
    st: &Checkpoint,
    p: Seq<char>,
    cfg: &SeaNetConfig,
    e: Option<Fault>,
    t: int,
    c: int,
    i: int,
)
    requires
        cfg.decoder_loadable(),
        cfg.runs(),
        0 <= i < cfg.stages(),
        decoder_stages_need(st, cfg, e, p, cfg.stages()) is None,
        w.loaded(st, p, cfg),
        w.valid(),
        w.spans(t),
        t >= 1,
        decoder_channels(w.layers@, i, c) == cfg.decoder_dim(i),
        forall|s: int| 0 <= s < w.layers@.len() ==> (#[trigger] w.layers@[s]).upsample.stride >= 1,
    ensures
        decoder_follows(w.layers@, i, c, t),
{
    let layer = w.layers@[i];
    let dim = cfg.decoder_dim(i);
    let at = cfg.stage_at(i);
    let ratio = cfg.ratios@[i] as int;
    let ti = decoder_frames(w.layers@, i, t);
    let u = ti * layer.upsample.stride;
    decoder_frames_grow(w, i, i + 1, t);
    decoder_frames_grow(w, i + 1, cfg.stages(), t);
    decoder_channels_halve(cfg, i);
    assert(cfg.decoder_dim(i) <= usize::MAX);
    each_decoder_stage_loads(st, cfg, e, p, cfg.stages(), i);
    let name = layer_name(p, at + 1) + ".conv"@;
    let f = decoder_stages_need(st, cfg, e, p, i);
    let g = transpose_need(st, f, name, dim, dim / 2, ratio * 2);
    let res = cfg.n_residual_layers as int;
    assert(residuals_need(st, cfg, g, p, at + 2, dim / 2, res) is None);
    residuals_need_keeps(st, cfg, g, p, at + 2, dim / 2, res);
    assert(decoder_stage_loaded(st, cfg, p, i, &layer));
    assert(ratio >= 1);
    blocks_span_less(layer.residuals@, w.samples(t), u);
    loaded_residuals_keep(st, cfg, g, p, at + 2, dim / 2, layer.residuals@, u);
    loaded_transpose_reads(st, f, name, dim, dim / 2, ratio * 2, ratio, &layer.upsample);
    assert((ti - 1) * ratio <= ti * ratio) by (nonlinear_arith)
        requires
            ratio >= 1,
    ;
    assert(layer.upsample.covers(ti));
}

/// A decoder that was loaded fits together, so that decoding over it succeeds.
pub proof fn loaded_decoder_fits(
    w: &SeaNetDecoderWeights,
    st: &Checkpoint,
    p: Seq<char>,
    cfg: &SeaNetConfig,
    t: int,
)
    requires
        cfg.decoder_loadable(),
        cfg.runs(),
        SeaNetDecoderWeights::load_failure(st, p, cfg) is None,
        w.loaded(st, p, cfg),
        w.valid(),
        w.spans(t),
        t >= 1,
    ensures
        w.fits_together(cfg, t),
{
    let n = cfg.stages();
    let name = layer_name(p, 0) + ".conv"@;
    let e = cfg.decoder_init().need(st, None, name);
    let c = w.init_conv.out_channels as int;
    assert(decoder_stages_need(st, cfg, e, p, n) is None);
    if n > 0 {
        each_decoder_stage_loads(st, cfg, e, p, n, 0);
        decoder_channels_halve(cfg, 0);
    }
    assert(power(2, 0) == 1);
    assert(cfg.decoder_dim(n) == cfg.n_filters);
    loaded_conv_reads(cfg.decoder_init(), st, None, name, &w.init_conv);
    assert forall|i: int| 0 <= i <= n implies #[trigger] decoder_channels(w.layers@, i, c)
        == cfg.decoder_dim(i) by {
        if i > 0 {
            decoder_channels_halve(cfg, i - 1);
            assert(decoder_stage_loaded(st, cfg, p, i - 1, &w.layers@[i - 1]));
        }
    }
    assert forall|i: int| 0 <= i < n implies (#[trigger] w.layers@[i]).upsample.stride >= 1 by {
        assert(decoder_stage_loaded(st, cfg, p, i, &w.layers@[i]));
        assert(cfg.ratios@[i] >= 1);
    }
    assert forall|i: int| 0 <= i < n implies #[trigger] decoder_follows(w.layers@, i, c, t) by {
        assert(decoder_channels(w.layers@, i, c) == cfg.decoder_dim(i));
        decoder_stage_follows(w, st, p, cfg, e, t, c, i);
    }
    assert(decoder_channels(w.layers@, n, c) == cfg.decoder_dim(n));
    let last = layer_name(p, cfg.stage_at(n) + 1) + ".conv"@;
    loaded_conv_reads(cfg.decoder_last(), st, decoder_stages_need(st, cfg, e, p, n), last, &w.final_conv);
}

/// A layer of a checkpoint that loads could be loaded on its own.
proof fn quantizer_layers_are_there(
    st: &Checkpoint,
    e: Option<Fault>,
    p: Seq<char>,
    dim: int,
    size: int,
    n: int,
    i: int,
)
    requires
        layers_need(st, e, p, dim, size, n) is None,
        0 <= i < n,
    ensures
        EuclideanCodebookWeights::need(st, None, layer_prefix(p, i) + ".codebook"@, size, dim) is None,
    decreases n,
{
    if i < n - 1 {
        quantizer_layers_are_there(st, e, p, dim, size, n - 1, i);
    }
}

proof fn loaded_stack_is_sized(
    w: &ResidualVectorQuantizerWeights,
    st: &Checkpoint,
    e: Option<Fault>,
    p: Seq<char>,
    dim: int,
    input_dim: int,
    output_dim: int,
    n: int,
    size: int,
    t: int,
)
    requires
        ResidualVectorQuantizerWeights::need(st, e, p, dim, input_dim, output_dim, n, size) is None,
        w.loaded(st, p, dim, input_dim, output_dim, n, size),
        1 <= n <= usize::MAX,
        dim >= 1,
        input_dim >= 1,
        output_dim >= 1,
        size >= 1,
        t >= 1,
        dim * input_dim <= usize::MAX,
        output_dim * dim <= usize::MAX,
        size * dim <= usize::MAX,
        t * dim <= usize::MAX,
        t <= usize::MAX,
    ensures
        w.sized(1, t),
{
    let e1 = st.need_len(
        st.need_len(e, p + ".input_proj.weight"@, dim * input_dim),
        p + ".output_proj.weight"@,
        output_dim * dim,
    );
    layers_need_keeps(st, e1, p, dim, size, n);
    assert(1 * t * dim == t * dim && 1 * t == t);
    assert(size * dim >= 0) by (nonlinear_arith)
        requires
            size >= 1,
            dim >= 1,
    ;
    assert forall|i: int| 0 <= i < w.vq.layers@.len() implies (#[trigger] w.vq.layers@[i]).sized(1, t)
        && w.vq.layers@[i].dim == dim by {
        quantizer_layers_are_there(st, e1, p, dim, size, n, i);
        assert(w.vq.layers@[i].loaded(st, layer_prefix(p, i), size, dim));
    }
}

/// A quantizer that was loaded has the sizes that it declares, so that coding
/// over it succeeds.
pub proof fn loaded_quantizer_is_sized(
    w: &SplitResidualVectorQuantizerWeights,
    st: &Checkpoint,
    p: Seq<char>,
    dim: int,
    input_dim: int,
    output_dim: int,
    n_q: int,
    size: int,
    t: int,
)
    requires
        SplitResidualVectorQuantizerWeights::need(st, None, p, dim, input_dim, output_dim, n_q, size) is None,
        w.loaded(st, p, dim, input_dim, output_dim, n_q, size),
        w.valid(),
        n_q >= 1,
        dim >= 1,
        input_dim >= 1,
        output_dim >= 1,
        size >= 1,
        1 <= t <= usize::MAX,
        dim * input_dim <= usize::MAX,
        output_dim * dim <= usize::MAX,
        size * dim <= usize::MAX,
        t * dim <= usize::MAX,
    ensures
        w.sized(input_dim, output_dim, 1, t),
{
    let first = p + ".semantic_residual_vector_quantizer"@;
    let rest = p + ".acoustic_residual_vector_quantizer"@;
    let e = ResidualVectorQuantizerWeights::need(st, None, first, dim, input_dim, output_dim, 1, size);
    let n = acoustic_layers(n_q);
    stack_need_keeps(st, e, rest, dim, input_dim, output_dim, n, size);
    if n_q > 1 {
        loaded_stack_is_sized(&w.rvq_rest, st, e, rest, dim, input_dim, output_dim, n, size, t);
    }
    loaded_stack_is_sized(&w.rvq_first, st, None, first, dim, input_dim, output_dim, 1, size, t);
}

/// Loaded stacks have the strides that the configuration lists: the decoder in
/// order, the encoder backwards.
pub proof fn loaded_strides(
    encoder: &SeaNetEncoderWeights,
    decoder: &SeaNetDecoderWeights,
    st: &Checkpoint,
    p: Seq<char>,
    q: Seq<char>,
    cfg: &SeaNetConfig,
)
    requires
        encoder.loaded(st, p, cfg),
        decoder.loaded(st, q, cfg),
    ensures
        encoder.strides_are(cfg.ratios@),
        decoder.strides_are(cfg.ratios@),
{
    let n = cfg.ratios@.len();
    assert forall|i: int| 0 <= i < n implies (#[trigger] encoder.layers@[i]).downsample.stride
        == cfg.ratios@[n - 1 - i] by {
        assert(encoder_stage_loaded(st, cfg, p, i, &encoder.layers@[i]));
    }
    assert forall|i: int| 0 <= i < n implies (#[trigger] decoder.layers@[i]).upsample.stride
        == cfg.ratios@[i] by {
        assert(decoder_stage_loaded(st, cfg, q, i, &decoder.layers@[i]));
    }
}

/// A failure before the decoder is a failure after it.
proof fn decoder_need_keeps(st: &Checkpoint, e: Option<Fault>, p: Seq<char>, cfg: &SeaNetConfig)
    ensures
        SeaNetDecoderWeights::need(st, e, p, cfg) is None ==> e is None,
{
    let f = cfg.decoder_init().need(st, e, layer_name(p, 0) + ".conv"@);
    if SeaNetDecoderWeights::need(st, e, p, cfg) is None && cfg.stages() > 0 {
        each_decoder_stage_loads(st, cfg, f, p, cfg.stages(), 0);
    }
}

impl MimiModel {
    /// No size is zero, and the weights are those of the checkpoint.
    pub open spec fn loaded(&self, st: &Checkpoint) -> bool {
        let w = self.weights;
        let s = w.resampler_stride as int;
        &&& self.config.loadable(s)
        &&& self.config.seanet.runs()
        &&& s >= 1
        &&& self.config.n_q >= 1
        &&& self.config.quantizer_dim >= 1
        &&& self.config.quantizer_bins >= 1
        &&& MimiWeights::load_failure(
            st,
            &self.config,
            s,
            Ok(w.encoder_transformer),
            Ok(w.decoder_transformer),
        ) is None
        &&& w.loaded(st, &self.config, s)
        &&& self.valid()
    }
}

/// Every part of a loaded codec was loaded.
proof fn each_part_loads(model: &MimiModel, st: &Checkpoint)
    requires
        model.loaded(st),
    ensures
        SeaNetEncoderWeights::load_failure(st, "encoder"@, &model.config.seanet) is None,
        SeaNetDecoderWeights::load_failure(st, "decoder"@, &model.config.seanet) is None,
        model.resamples(),
        SplitResidualVectorQuantizerWeights::need(
            st,
            None,
            "quantizer"@,
            model.config.quantizer_dim as int,
            model.config.seanet.dimension as int,
            model.config.seanet.dimension as int,
            model.config.n_q as int,
            model.config.quantizer_bins as int,
        ) is None,
{
    let cfg = &model.config;
    let dim = cfg.seanet.dimension as int;
    let s = model.weights.resampler_stride as int;
    let e1 = SeaNetEncoderWeights::need(st, None, "encoder"@, &cfg.seanet);
    let e2 = SeaNetDecoderWeights::need(st, e1, "decoder"@, &cfg.seanet);
    let e3 = st.need_len(e2, "downsample.conv.weight"@, dim * dim * (2 * s));
    let e4 = st.need_len(e3, "upsample.convtr.weight"@, dim * (2 * s));
    let first = "quantizer"@ + ".semantic_residual_vector_quantizer"@;
    let rest = "quantizer"@ + ".acoustic_residual_vector_quantizer"@;
    let q = cfg.quantizer_dim as int;
    let size = cfg.quantizer_bins as int;
    let n = acoustic_layers(cfg.n_q as int);
    let e5 = ResidualVectorQuantizerWeights::need(st, e4, first, q, dim, dim, 1, size);
    stack_need_keeps(st, e5, rest, q, dim, dim, n, size);
    stack_need_keeps(st, e4, first, q, dim, dim, 1, size);
    decoder_need_keeps(st, e1, "decoder"@, &cfg.seanet);
}

/// A failure before a stack of codebooks is a failure after it.
proof fn stack_need_keeps(
    st: &Checkpoint,
    e: Option<Fault>,
    p: Seq<char>,
    dim: int,
    input_dim: int,
    output_dim: int,
    n: int,
    size: int,
)
    ensures
        ResidualVectorQuantizerWeights::need(st, e, p, dim, input_dim, output_dim, n, size) is None
            ==> e is None,
{
    let e1 = st.need_len(
        st.need_len(e, p + ".input_proj.weight"@, dim * input_dim),
        p + ".output_proj.weight"@,
        output_dim * dim,
    );
    layers_need_keeps(st, e1, p, dim, size, n);
}

/// A loaded codec encodes audio of `t` samples that gives `f` latent positions:
/// only the transformer, which is loaded elsewhere, has to be of its size.
pub proof fn loaded_codec_encodes(model: &MimiModel, st: &Checkpoint, t: int, f: int)
    requires
        model.loaded(st),
        t >= model.weights.encoder.hop(model.weights.encoder.layers@.len() as int),
        model.weights.encoder.spans(t),
        model.latent_frames(t) == f,
        f >= model.weights.resampler_stride,
        f + model.weights.resampler_stride <= usize::MAX,
        (f / model.weights.resampler_stride as int) * model.config.quantizer_dim <= usize::MAX,
        model.config.transformer.conv_layout,
        model.config.transformer.addressable(1, f),
        model.weights.encoder_transformer.sized(
            &model.config.transformer,
            model.config.seanet.dimension as int,
        ),
        model.weights.encoder_transformer.output_projs@[0].1 == model.config.seanet.dimension,
    ensures
        model.encodes(t, f),
{
    let cfg = &model.config;
    let d = cfg.seanet.dimension as int;
    let s = model.weights.resampler_stride as int;
    each_part_loads(model, st);
    loaded_encoder_fits(&model.weights.encoder, st, "encoder"@, &cfg.seanet, t);
    assert(1 <= f / s <= f) by (nonlinear_arith)
        requires
            f >= s,
            s >= 1,
    ;
    loaded_quantizer_is_sized(
        &model.weights.quantizer,
        st,
        "quantizer"@,
        cfg.quantizer_dim as int,
        d,
        d,
        cfg.n_q as int,
        cfg.quantizer_bins as int,
        f / s,
    );
}

/// A loaded codec decodes `n` frames of codes: only the transformer, which is
/// loaded elsewhere, has to be of its size.
pub proof fn loaded_codec_decodes(model: &MimiModel, st: &Checkpoint, n: int)
    requires
        model.loaded(st),
        n >= 1,
        n * model.weights.resampler_stride + model.weights.resampler_stride <= usize::MAX,
        n * model.config.quantizer_dim <= usize::MAX,
        model.weights.decoder.spans(n * model.weights.resampler_stride),
        model.config.transformer.conv_layout,
        model.config.transformer.addressable(1, n * model.weights.resampler_stride),
        model.weights.decoder_transformer.sized(
            &model.config.transformer,
            model.config.seanet.dimension as int,
        ),
        model.weights.decoder_transformer.output_projs@[0].1 == model.config.seanet.dimension,
    ensures
        model.decodes(n),
{
    let cfg = &model.config;
    let d = cfg.seanet.dimension as int;
    let s = model.weights.resampler_stride as int;
    each_part_loads(model, st);
    assert(n * s >= n) by (nonlinear_arith)
        requires
            n >= 1,
            s >= 1,
    ;
    loaded_decoder_fits(&model.weights.decoder, st, "decoder"@, &cfg.seanet, n * s);
    loaded_quantizer_is_sized(
        &model.weights.quantizer,
        st,
        "quantizer"@,
        cfg.quantizer_dim as int,
        d,
        d,
        cfg.n_q as int,
        cfg.quantizer_bins as int,
        n,
    );
}

} // verus!
