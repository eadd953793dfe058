//! SeaNet: a convolutional encoder from audio to latents and its mirror image.
//!
//! - A residual block applies `conv(activation(y))` for each of its
//!   convolutions and adds its input, or a convolution of it.
//! - The encoder is an initial convolution, then for each stage residual
//!   blocks, an activation and a strided convolution that doubles the channels,
//!   then an activation and a final convolution.
//! - The decoder is an initial convolution, then for each stage an activation, a
//!   strided transposed convolution that halves the channels and residual
//!   blocks, then an activation, a final convolution and an optional activation.
//!
//! Every convolution is causal: it pads `(kernel - 1) * dilation + 1 - stride`
//! positions on the left, or none where that is negative, and none on the
//! right. Dilation is folded into the kernel by zero taps.

use crate::checkpoint::{decimal, join, numbered, wrong_len, Checkpoint, Loader};
use crate::error::{Error, Fault, LoadError};
use crate::lazy::{outcome, LazyTensor, Tensor};
use crate::lazy_mimi_conv::LazyPadMode;
pub use crate::lazy_mimi_conv::LazyPadMode as PadMode;
use crate::lazy_mimi_conv::{bias_data, pad_value, padded};
use crate::scalar::{add64, cast, div32, mul32, mul64, sqrt64, zero, Data, Precision, Scalar};
use std::sync::Arc;
use vstd::prelude::*;

verus! {

#[derive(Debug, Clone, Copy, PartialEq, Eq, Structural)]
pub enum SeaNetActivation {
    /// Exponential linear unit with parameter one.
    Elu1,
    Gelu,
    Relu,
    Silu,
}

#[derive(Debug)]
pub struct SeaNetConfig {
    /// Channels of the latents.
    pub dimension: usize,
    /// Channels of the audio.
    pub channels: usize,
    pub n_filters: usize,
    pub n_residual_layers: usize,
    /// Strides of the decoder stages; the encoder goes through them backwards.
    pub ratios: Vec<usize>,
    pub activation: SeaNetActivation,
    pub kernel_size: usize,
    pub residual_kernel_size: usize,
    pub last_kernel_size: usize,
    pub dilation_base: usize,
    pub pad_mode: LazyPadMode,
    pub true_skip: bool,
    pub compress: usize,
    pub final_activation: Option<SeaNetActivation>,
}

impl Clone for SeaNetConfig {
    fn clone(&self) -> (r: Self)
        ensures
            r.same(self),
    {
        SeaNetConfig {
            dimension: self.dimension,
            channels: self.channels,
            n_filters: self.n_filters,
            n_residual_layers: self.n_residual_layers,
            ratios: self.ratios.clone(),
            activation: self.activation,
            kernel_size: self.kernel_size,
            residual_kernel_size: self.residual_kernel_size,
            last_kernel_size: self.last_kernel_size,
            dilation_base: self.dilation_base,
            pad_mode: self.pad_mode,
            true_skip: self.true_skip,
            compress: self.compress,
            final_activation: self.final_activation,
        }
    }
}

impl SeaNetConfig {
    /// The sizes of version 0.1.
    pub open spec fn is_v0_1(&self) -> bool {
        &&& self.dimension == 512
        &&& self.channels == 1
        &&& self.n_filters == 64
        &&& self.n_residual_layers == 1
        &&& self.ratios@ == seq![8usize, 6, 5, 4]
        &&& self.activation == SeaNetActivation::Elu1
        &&& self.kernel_size == 7
        &&& self.residual_kernel_size == 3
        &&& self.last_kernel_size == 3
        &&& self.dilation_base == 2
        &&& self.pad_mode == LazyPadMode::Constant
        &&& self.true_skip
        &&& self.compress == 2
        &&& self.final_activation is None
    }

    /// Whether two configurations agree in every size.
    pub open spec fn same(&self, other: &SeaNetConfig) -> bool {
        &&& self.dimension == other.dimension
        &&& self.channels == other.channels
        &&& self.n_filters == other.n_filters
        &&& self.n_residual_layers == other.n_residual_layers
        &&& self.ratios@ == other.ratios@
        &&& self.activation == other.activation
        &&& self.kernel_size == other.kernel_size
        &&& self.residual_kernel_size == other.residual_kernel_size
        &&& self.last_kernel_size == other.last_kernel_size
        &&& self.dilation_base == other.dilation_base
        &&& self.pad_mode == other.pad_mode
        &&& self.true_skip == other.true_skip
        &&& self.compress == other.compress
        &&& self.final_activation == other.final_activation
    }

    /// The sizes of version 0.1.
    pub fn mimi_v0_1() -> (r: Self)
        ensures
            r.is_v0_1(),
    {
        SeaNetConfig {
            dimension: 512,
            channels: 1,
            n_filters: 64,
            n_residual_layers: 1,
            ratios: vec![8, 6, 5, 4],
            activation: SeaNetActivation::Elu1,
            kernel_size: 7,
            residual_kernel_size: 3,
            last_kernel_size: 3,
            dilation_base: 2,
            pad_mode: LazyPadMode::Constant,
            true_skip: true,
            compress: 2,
            final_activation: None,
        }
    }
}

#[derive(Debug, Clone)]
pub struct LazyConv1dWeights {
    /// `[out_channels, in_channels / groups, kernel_size]`.
    pub weight: Data,
    pub bias: Option<Data>,
    pub in_channels: usize,
    pub out_channels: usize,
    pub kernel_size: usize,
    pub stride: usize,
    pub dilation: usize,
    pub groups: usize,
}

#[derive(Debug, Clone)]
pub struct LazyConvTranspose1dWeights {
    /// `[in_channels, out_channels / groups, kernel_size]`.
    pub weight: Data,
    pub bias: Option<Data>,
    pub in_channels: usize,
    pub out_channels: usize,
    pub kernel_size: usize,
    pub stride: usize,
    pub groups: usize,
}

#[derive(Debug, Clone)]
pub struct SeaNetResnetBlockWeights {
    pub convs: Vec<LazyConv1dWeights>,
    /// Absent where the block adds its input as it is.
    pub shortcut: Option<LazyConv1dWeights>,
}

#[derive(Debug, Clone)]
pub struct SeaNetEncoderLayerWeights {
    pub residuals: Vec<SeaNetResnetBlockWeights>,
    pub downsample: LazyConv1dWeights,
}

#[derive(Debug, Clone)]
pub struct SeaNetDecoderLayerWeights {
    pub upsample: LazyConvTranspose1dWeights,
    pub residuals: Vec<SeaNetResnetBlockWeights>,
}

#[derive(Debug, Clone)]
pub struct SeaNetEncoderWeights {
    pub init_conv: LazyConv1dWeights,
    pub layers: Vec<SeaNetEncoderLayerWeights>,
    pub final_conv: LazyConv1dWeights,
}

#[derive(Debug, Clone)]
pub struct SeaNetDecoderWeights {
    pub init_conv: LazyConv1dWeights,
    pub layers: Vec<SeaNetDecoderLayerWeights>,
    pub final_conv: LazyConv1dWeights,
}

pub open spec fn activated(x: Tensor, act: SeaNetActivation) -> Tensor {
    match act {
        SeaNetActivation::Elu1 => x.elu(crate::scalar::one64()),
        SeaNetActivation::Gelu => x.gelu(),
        SeaNetActivation::Relu => x.relu(),
        SeaNetActivation::Silu => x.silu(),
    }
}

/// Applies an activation.
pub fn apply_activation(x: &LazyTensor, act: SeaNetActivation) -> (r: LazyTensor)
    ensures
        r@ == activated(x@, act),
{
    match act {
        SeaNetActivation::Elu1 => x.elu(&Scalar::F64(0x3FF0_0000_0000_0000)),
        SeaNetActivation::Gelu => x.gelu(),
        SeaNetActivation::Relu => x.relu(),
        SeaNetActivation::Silu => x.silu(),
    }
}

/// Rows of `k` taps spread out to rows of `(k - 1) * dilation + 1` taps, with
/// zeros between the taps.
pub open spec fn spread_taps(w: Seq<Scalar>, rows: int, k: int, dilation: int) -> Seq<Scalar> {
    let e = (k - 1) * dilation + 1;
    Seq::new(
        (rows * e) as nat,
        |n: int| if n % e % dilation == 0 {
            w[n / e * k + n % e / dilation]
        } else {
            zero()
        },
    )
}

/// A dilation of one changes nothing.
pub proof fn undilated_taps(w: Seq<Scalar>, rows: int, k: int)
    requires
        rows >= 0,
        k >= 1,
        w.len() == rows * k,
    ensures
        spread_taps(w, rows, k, 1) == w,
{
    let e = (k - 1) * 1 + 1;
    assert(e == k);
    assert forall|n: int| 0 <= n < rows * k implies spread_taps(w, rows, k, 1)[n] == w[n] by {
        assert(n / k * k + n % k == n) by (nonlinear_arith)
            requires
                k >= 1,
        ;
    }
    assert(spread_taps(w, rows, k, 1) =~= w);
}

/// Where the spread taps come from lies inside the kernel.
proof fn tap_source(rows: int, k: int, dilation: int, e: int, n: int)
    requires
        k >= 1,
        dilation >= 1,
        e == (k - 1) * dilation + 1,
        0 <= n < rows * e,
    ensures
        e >= 1,
        0 <= n / e < rows,
        0 <= n % e < e,
        0 <= n % e / dilation < k,
        0 <= n / e * k,
        n / e * k + n % e / dilation < rows * k,
{
    assert(e >= 1) by (nonlinear_arith)
        requires
            e == (k - 1) * dilation + 1,
            k >= 1,
            dilation >= 1,
    ;
    let q = n / e;
    let c = n % e;
    assert(n == q * e + c && 0 <= c < e) by (nonlinear_arith)
        requires
            e >= 1,
            q == n / e,
            c == n % e,
    ;
    assert(0 <= q < rows) by (nonlinear_arith)
        requires
            n == q * e + c,
            0 <= c < e,
            0 <= n < rows * e,
    ;
    let t = c / dilation;
    assert(0 <= t < k) by (nonlinear_arith)
        requires
            t == c / dilation,
            0 <= c <= (k - 1) * dilation,
            dilation >= 1,
    ;
    assert(0 <= q * k && q * k + t < rows * k) by (nonlinear_arith)
        requires
            0 <= q < rows,
            0 <= t < k,
    ;
}

/// Spreads the taps of a kernel.
pub fn expand_taps(w: &Vec<Scalar>, rows: usize, k: usize, dilation: usize) -> (r: Vec<Scalar>)
    requires
        k >= 1,
        dilation >= 1,
        (k - 1) * dilation + 1 <= usize::MAX,
        rows * ((k - 1) * dilation + 1) <= usize::MAX,
        w@.len() == rows * k,
    ensures
        r@ == spread_taps(w@, rows as int, k as int, dilation as int),
{
    assert((k - 1) * dilation >= 0) by (nonlinear_arith)
        requires
            k >= 1,
            dilation >= 1,
    ;
    let e: usize = (k - 1) * dilation + 1;
    let n: usize = rows * e;
    let mut out: Vec<Scalar> = Vec::new();
    let mut i: usize = 0;
    while i < n
        invariant
            i <= n,
            n == rows * e,
            k >= 1,
            dilation >= 1,
            e == (k - 1) * dilation + 1,
            w@.len() == rows * k,
            out@.len() == i,
            forall|j: int|
                0 <= j < i ==> out@[j] == spread_taps(
                    w@,
                    rows as int,
                    k as int,
                    dilation as int,
                )[j],
        decreases n - i,
    {
        proof {
            tap_source(rows as int, k as int, dilation as int, e as int, i as int);
        }
        let c: usize = i % e;
        if c % dilation == 0 {
            assert(w.len() == w@.len());
            out.push(w[i / e * k + c / dilation].clone());
        } else {
            out.push(Scalar::F32(0));
        }
        i = i + 1;
    }
    assert(out@ =~= spread_taps(w@, rows as int, k as int, dilation as int));
    out
}

impl LazyConv1dWeights {
    /// Taps of the kernel with the zeros between them.
    pub open spec fn reach(&self) -> int {
        (self.kernel_size - 1) * self.dilation + 1
    }

    pub open spec fn per_group(&self) -> int {
        self.in_channels as int / self.groups as int
    }

    pub open spec fn rows(&self) -> int {
        self.out_channels * self.per_group()
    }

    /// There are taps and groups, and the taps can be counted.
    pub open spec fn valid(&self) -> bool {
        &&& self.kernel_size >= 1
        &&& self.dilation >= 1
        &&& self.groups >= 1
        &&& self.reach() <= usize::MAX
        &&& self.rows() <= usize::MAX
        &&& self.rows() * self.kernel_size <= usize::MAX
        &&& self.rows() * self.reach() <= usize::MAX
    }

    /// The kernel as a tensor, unless it has another size than declared.
    pub open spec fn kernel(&self) -> Tensor {
        if self.weight@.len() == self.rows() * self.kernel_size {
            Tensor::constant(
                spread_taps(
                    self.weight@,
                    self.rows(),
                    self.kernel_size as int,
                    self.dilation as int,
                ),
                seq![self.out_channels as int, self.per_group(), self.reach()],
            )
        } else {
            Tensor::invalid(Error::Shape)
        }
    }

    pub open spec fn bias_value(&self) -> Option<Tensor> {
        match self.bias {
            None => None,
            Some(b) => Some(Tensor::constant(b@, seq![self.out_channels as int])),
        }
    }

    /// Positions that lead the signal: the first window ends with the first
    /// `stride` positions.
    pub open spec fn lead(&self) -> int {
        if self.reach() > self.stride {
            self.reach() - self.stride
        } else {
            0
        }
    }

    /// The causal convolution of `x`.
    pub open spec fn value(&self, x: Tensor, mode: LazyPadMode) -> Tensor {
        padded(x, self.lead(), 0, mode).conv1d(
            self.kernel(),
            self.bias_value(),
            self.stride as int,
            0,
            self.groups as int,
        )
    }
}

fn apply_causal_conv1d(x: &LazyTensor, w: &LazyConv1dWeights, pad_mode: LazyPadMode) -> (r: LazyTensor)
    requires
        w.valid(),
    ensures
        r@ == w.value(x@, pad_mode),
{
    assert((w.kernel_size - 1) * w.dilation >= 0) by (nonlinear_arith)
        requires
            w.kernel_size >= 1,
            w.dilation >= 1,
    ;
    let reach: usize = (w.kernel_size - 1) * w.dilation + 1;
    let pad: usize = if reach > w.stride { reach - w.stride } else { 0 };
    let per_group: usize = w.in_channels / w.groups;
    let rows: usize = w.out_channels * per_group;
    let padded = pad_value(x, pad, 0, pad_mode);
    let weight = if w.weight.len() == rows * w.kernel_size {
        let taps = expand_taps(&w.weight, rows, w.kernel_size, w.dilation);
        LazyTensor::const3(&Arc::new(taps), w.out_channels, per_group, reach)
    } else {
        LazyTensor::invalid(Error::Shape)
    };
    match &w.bias {
        None => padded.conv1d(&weight, None, w.stride, 0, w.groups),
        Some(b) => {
            let bias = LazyTensor::const1(b, w.out_channels);
            padded.conv1d(&weight, Some(&bias), w.stride, 0, w.groups)
        },
    }
}

impl LazyConvTranspose1dWeights {
    /// The transposed convolution of `x`, without the positions that later input
    /// would contribute to.
    pub open spec fn value(&self, x: Tensor) -> Tensor {
        let raw = x.conv_transpose1d(
            Tensor::constant(
                self.weight@,
                seq![
                    self.in_channels as int,
                    self.out_channels as int / self.groups as int,
                    self.kernel_size as int,
                ],
            ),
            self.stride as int,
            self.groups as int,
        );
        let y = match self.bias {
            None => raw,
            Some(b) => raw.add(
                Tensor::constant(b@, seq![self.out_channels as int]).reshape(
                    seq![1, self.out_channels as int, 1],
                ).broadcast_to(seq![raw.dim(0), raw.dim(1), raw.dim(2)]),
            ),
        };
        y.narrow(2, 0, floor_minus(y.dim(2), floor_minus(self.kernel_size as int, self.stride as int)))
    }
}

/// `a - b`, zero where `b` is larger.
pub open spec fn floor_minus(a: int, b: int) -> int {
    if a < b {
        0
    } else {
        a - b
    }
}

fn apply_causal_conv_transpose1d(x: &LazyTensor, w: &LazyConvTranspose1dWeights) -> (r: LazyTensor)
    requires
        w.groups >= 1,
    ensures
        r@ == w.value(x@),
{
    let weight = LazyTensor::const3(
        &w.weight,
        w.in_channels,
        w.out_channels / w.groups,
        w.kernel_size,
    );
    let raw = x.conv_transpose1d(&weight, w.stride, w.groups);
    let y = match &w.bias {
        None => raw,
        Some(b) => {
            let bias = LazyTensor::const1(b, w.out_channels).reshape3(
                1,
                w.out_channels,
                1,
            ).broadcast_to3(raw.dim(0), raw.dim(1), raw.dim(2));
            raw.add(&bias)
        },
    };
    let t_out: usize = y.dim(2);
    let trim: usize = if w.kernel_size < w.stride { 0 } else { w.kernel_size - w.stride };
    let keep: usize = if t_out < trim { 0 } else { t_out - trim };
    y.narrow(2, 0, keep)
}

/// The first `n` convolutions of a block, an activation before each.
pub open spec fn convs_value(
    convs: Seq<LazyConv1dWeights>,
    n: int,
    x: Tensor,
    act: SeaNetActivation,
    mode: LazyPadMode,
) -> Tensor
    decreases n,
{
    if n <= 0 {
        x
    } else {
        convs[n - 1].value(activated(convs_value(convs, n - 1, x, act, mode), act), mode)
    }
}

impl SeaNetResnetBlockWeights {
    /// What a residual block makes of `x`.
    pub open spec fn value(&self, x: Tensor, act: SeaNetActivation, mode: LazyPadMode) -> Tensor {
        let skip = match self.shortcut {
            None => x,
            Some(s) => s.value(x, mode),
        };
        convs_value(self.convs@, self.convs@.len() as int, x, act, mode).add(skip)
    }

    pub open spec fn valid(&self) -> bool {
        &&& forall|i: int| 0 <= i < self.convs@.len() ==> (#[trigger] self.convs@[i]).valid()
        &&& self.shortcut matches Some(s) ==> s.valid()
    }
}

fn apply_resnet_block(
    x: &LazyTensor,
    w: &SeaNetResnetBlockWeights,
    activation: SeaNetActivation,
    pad_mode: LazyPadMode,
) -> (r: LazyTensor)
    requires
        w.valid(),
    ensures
        r@ == w.value(x@, activation, pad_mode),
{
    let mut y = x.clone();
    let mut i: usize = 0;
    while i < w.convs.len()
        invariant
            w.valid(),
            i <= w.convs@.len(),
            y@ == convs_value(w.convs@, i as int, x@, activation, pad_mode),
        decreases w.convs@.len() - i,
    {
        y = apply_causal_conv1d(&apply_activation(&y, activation), &w.convs[i], pad_mode);
        i = i + 1;
    }
    let skip = match &w.shortcut {
        None => x.clone(),
        Some(shortcut) => apply_causal_conv1d(x, shortcut, pad_mode),
    };
    y.add(&skip)
}

/// The first `n` residual blocks, one after the other.
pub open spec fn residuals_value(
    blocks: Seq<SeaNetResnetBlockWeights>,
    n: int,
    x: Tensor,
    act: SeaNetActivation,
    mode: LazyPadMode,
) -> Tensor
    decreases n,
{
    if n <= 0 {
        x
    } else {
        blocks[n - 1].value(residuals_value(blocks, n - 1, x, act, mode), act, mode)
    }
}

/// Every block of a list is valid.
pub open spec fn blocks_valid(blocks: Seq<SeaNetResnetBlockWeights>) -> bool {
    forall|i: int| 0 <= i < blocks.len() ==> (#[trigger] blocks[i]).valid()
}

fn apply_residuals(
    x: &LazyTensor,
    blocks: &Vec<SeaNetResnetBlockWeights>,
    activation: SeaNetActivation,
    pad_mode: LazyPadMode,
) -> (r: LazyTensor)
    requires
        blocks_valid(blocks@),
    ensures
        r@ == residuals_value(blocks@, blocks@.len() as int, x@, activation, pad_mode),
{
    let mut y = x.clone();
    let mut i: usize = 0;
    while i < blocks.len()
        invariant
            blocks_valid(blocks@),
            i <= blocks@.len(),
            y@ == residuals_value(blocks@, i as int, x@, activation, pad_mode),
        decreases blocks@.len() - i,
    {
        y = apply_resnet_block(&y, &blocks[i], activation, pad_mode);
        i = i + 1;
    }
    y
}

#[derive(Debug, Clone)]
pub struct SeaNetEncoderModel {
    pub config: SeaNetConfig,
    pub weights: SeaNetEncoderWeights,
}

#[derive(Debug, Clone)]
pub struct SeaNetDecoderModel {
    pub config: SeaNetConfig,
    pub weights: SeaNetDecoderWeights,
}

/// The first `n` encoder stages.
pub open spec fn encoder_stages(
    layers: Seq<SeaNetEncoderLayerWeights>,
    n: int,
    x: Tensor,
    act: SeaNetActivation,
    mode: LazyPadMode,
) -> Tensor
    decreases n,
{
    if n <= 0 {
        x
    } else {
        let w = layers[n - 1];
        w.downsample.value(
            activated(
                residuals_value(
                    w.residuals@,
                    w.residuals@.len() as int,
                    encoder_stages(layers, n - 1, x, act, mode),
                    act,
                    mode,
                ),
                act,
            ),
            mode,
        )
    }
}

/// The first `n` decoder stages.
pub open spec fn decoder_stages(
    layers: Seq<SeaNetDecoderLayerWeights>,
    n: int,
    x: Tensor,
    act: SeaNetActivation,
    mode: LazyPadMode,
) -> Tensor
    decreases n,
{
    if n <= 0 {
        x
    } else {
        let w = layers[n - 1];
        residuals_value(
            w.residuals@,
            w.residuals@.len() as int,
            w.upsample.value(activated(decoder_stages(layers, n - 1, x, act, mode), act)),
            act,
            mode,
        )
    }
}

impl SeaNetEncoderWeights {
    /// Every convolution is valid.
    pub open spec fn valid(&self) -> bool {
        &&& self.init_conv.valid()
        &&& forall|i: int|
            0 <= i < self.layers@.len() ==> blocks_valid((#[trigger] self.layers@[i]).residuals@)
                && self.layers@[i].downsample.valid()
        &&& self.final_conv.valid()
    }

    /// The latents of the audio.
    pub open spec fn value(&self, cfg: &SeaNetConfig, audio: Tensor) -> Tensor {
        let act = cfg.activation;
        let mode = cfg.pad_mode;
        self.final_conv.value(
            activated(
                encoder_stages(
                    self.layers@,
                    self.layers@.len() as int,
                    self.init_conv.value(audio, mode),
                    act,
                    mode,
                ),
                act,
            ),
            mode,
        )
    }

    pub(crate) fn apply(&self, cfg: &SeaNetConfig, audio: &LazyTensor) -> (r: LazyTensor)
        requires
            self.valid(),
        ensures
            r@ == self.value(cfg, audio@),
    {
        let act = cfg.activation;
        let mode = cfg.pad_mode;
        let mut x = apply_causal_conv1d(audio, &self.init_conv, mode);
        let ghost x0 = x@;
        let mut i: usize = 0;
        while i < self.layers.len()
            invariant
                self.valid(),
                i <= self.layers@.len(),
                x@ == encoder_stages(self.layers@, i as int, x0, act, mode),
            decreases self.layers@.len() - i,
        {
            let layer = &self.layers[i];
            assert(blocks_valid(self.layers@[i as int].residuals@));
            let y = apply_residuals(&x, &layer.residuals, act, mode);
            x = apply_causal_conv1d(&apply_activation(&y, act), &layer.downsample, mode);
            i = i + 1;
        }
        apply_causal_conv1d(&apply_activation(&x, act), &self.final_conv, mode)
    }
}

impl SeaNetDecoderWeights {
    /// Every convolution is valid.
    pub open spec fn valid(&self) -> bool {
        &&& self.init_conv.valid()
        &&& forall|i: int|
            0 <= i < self.layers@.len() ==> blocks_valid((#[trigger] self.layers@[i]).residuals@)
                && self.layers@[i].upsample.groups >= 1
        &&& self.final_conv.valid()
    }

    /// The audio of the latents.
    pub open spec fn value(&self, cfg: &SeaNetConfig, latent: Tensor) -> Tensor {
        let act = cfg.activation;
        let mode = cfg.pad_mode;
        let y = self.final_conv.value(
            activated(
                decoder_stages(
                    self.layers@,
                    self.layers@.len() as int,
                    self.init_conv.value(latent, mode),
                    act,
                    mode,
                ),
                act,
            ),
            mode,
        );
        match cfg.final_activation {
            None => y,
            Some(a) => activated(y, a),
        }
    }

    pub(crate) fn apply(&self, cfg: &SeaNetConfig, latent: &LazyTensor) -> (r: LazyTensor)
        requires
            self.valid(),
        ensures
            r@ == self.value(cfg, latent@),
    {
        let act = cfg.activation;
        let mode = cfg.pad_mode;
        let mut x = apply_causal_conv1d(latent, &self.init_conv, mode);
        let ghost x0 = x@;
        let mut i: usize = 0;
        while i < self.layers.len()
            invariant
                self.valid(),
                i <= self.layers@.len(),
                x@ == decoder_stages(self.layers@, i as int, x0, act, mode),
            decreases self.layers@.len() - i,
        {
            let layer = &self.layers[i];
            assert(blocks_valid(self.layers@[i as int].residuals@));
            let y = apply_causal_conv_transpose1d(&apply_activation(&x, act), &layer.upsample);
            x = apply_residuals(&y, &layer.residuals, act, mode);
            i = i + 1;
        }
        let y = apply_causal_conv1d(&apply_activation(&x, act), &self.final_conv, mode);
        match cfg.final_activation {
            None => y,
            Some(a) => apply_activation(&y, a),
        }
    }
}

impl SeaNetEncoderModel {
    /// Encodes audio `(1, channels, time)` into latents `(1, dimension, frames)`.
    pub fn forward(&self, audio: &LazyTensor) -> (r: Result<LazyTensor, Error>)
        requires
            self.weights.valid(),
        ensures
            outcome(r, self.weights.value(&self.config, audio@)),
    {
        self.weights.apply(&self.config, audio).finish()
    }
}

impl SeaNetDecoderModel {
    /// Decodes latents `(1, dimension, frames)` into audio `(1, channels, time)`.
    pub fn forward(&self, latent: &LazyTensor) -> (r: Result<LazyTensor, Error>)
        requires
            self.weights.valid(),
        ensures
            outcome(r, self.weights.value(&self.config, latent@)),
    {
        self.weights.apply(&self.config, latent).finish()
    }
}

/// Sum of the squares of the `n` elements from `base` on, added from the left in
/// double precision.
pub open spec fn sum_squares64(v: Seq<Scalar>, base: int, n: int) -> Scalar
    decreases n,
{
    if n <= 0 {
        Scalar::F64(0)
    } else {
        let x = cast(Precision::Double, v[base + n - 1]);
        add64(sum_squares64(v, base, n - 1), mul64(x, x))
    }
}

/// Euclidean length of row `o`, rounded to single precision.
pub open spec fn row_length(v: Seq<Scalar>, inner: int, o: int) -> Scalar {
    cast(Precision::Single, sqrt64(sum_squares64(v, o * inner, inner)))
}

/// The factor of row `o`: its gain over its length, or zero for a row of length
/// zero.
pub open spec fn row_factor(g: Seq<Scalar>, v: Seq<Scalar>, inner: int, o: int) -> Scalar {
    let n = row_length(v, inner, o);
    Scalar::IfPositive(Arc::new(n), Arc::new(div32(g[o], n)), Arc::new(zero()))
}

/// The weight `v * g / |v|`, row by row.
pub open spec fn fused_norm(g: Seq<Scalar>, v: Seq<Scalar>, leading: int, inner: int) -> Seq<Scalar> {
    Seq::new((leading * inner) as nat, |i: int| mul32(v[i], row_factor(g, v, inner, i / inner)))
}

/// Turns a weight given by direction `weight_v` and length `weight_g`, of
/// `leading` rows, into the weight itself.
pub fn fuse_weight_norm(
    weight_g: &Vec<Scalar>,
    weight_v: &Vec<Scalar>,
    leading: usize,
    inner_per_leading: usize,
) -> (r: Vec<Scalar>)
    requires
        weight_g@.len() == leading,
        weight_v@.len() == leading * inner_per_leading,
    ensures
        r@ == fused_norm(weight_g@, weight_v@, leading as int, inner_per_leading as int),
{
    let inner: usize = inner_per_leading;
    let n: usize = weight_v.len();
    let ghost want = fused_norm(weight_g@, weight_v@, leading as int, inner as int);
    let mut out: Vec<Scalar> = Vec::new();
    let mut o: usize = 0;
    proof {
        assert(0 * inner == 0) by (nonlinear_arith);
    }
    while o < leading
        invariant
            o <= leading,
            weight_g@.len() == leading,
            n == weight_v@.len() == leading * inner,
            want == fused_norm(weight_g@, weight_v@, leading as int, inner as int),
            out@.len() == o * inner,
            forall|j: int| 0 <= j < out@.len() ==> out@[j] == want[j],
        decreases leading - o,
    {
        assert(o * inner + inner <= leading * inner && o * inner >= 0 && (o + 1) * inner == o * inner
            + inner) by (nonlinear_arith)
            requires
                o < leading,
                inner >= 0,
        ;
        let base: usize = o * inner;
        let mut sum = Scalar::F64(0);
        let mut j: usize = 0;
        while j < inner
            invariant
                j <= inner,
                base + inner <= n == weight_v@.len(),
                sum == sum_squares64(weight_v@, base as int, j as int),
            decreases inner - j,
        {
            let x = weight_v[base + j].clone().cast(Precision::Double);
            sum = sum.add64(x.clone().mul64(x));
            j = j + 1;
        }
        let norm = sum.sqrt64().cast(Precision::Single);
        let scaled = weight_g[o].clone().div32(norm.clone());
        let factor = Arc::new(
            Scalar::IfPositive(Arc::new(norm), Arc::new(scaled), Arc::new(Scalar::F32(0))),
        );
        let mut k: usize = 0;
        while k < inner
            invariant
                k <= inner,
                o < leading,
                base == o * inner,
                base + inner <= n == weight_v@.len(),
                n == leading * inner,
                want == fused_norm(weight_g@, weight_v@, leading as int, inner as int),
                *factor == row_factor(weight_g@, weight_v@, inner as int, o as int),
                out@.len() == base + k,
                forall|j: int| 0 <= j < out@.len() ==> out@[j] == want[j],
            decreases inner - k,
        {
            proof {
                vstd::arithmetic::div_mod::lemma_fundamental_div_mod_converse(
                    base + k,
                    inner as int,
                    o as int,
                    k as int,
                );
            }
            out.push(weight_v[base + k].clone().mul32_shared(&factor));
            k = k + 1;
        }
        o = o + 1;
    }
    assert(out@ =~= want);
    out
}

/// The failure, after an earlier one, to load the kernel `p`: one tensor, or a
/// direction and a length.
pub open spec fn kernel_need(
    st: &Checkpoint,
    e: Option<Fault>,
    p: Seq<char>,
    leading: int,
    inner: int,
) -> Option<Fault> {
    if st.lookup(p + ".weight"@) is Some {
        st.need_len(e, p + ".weight"@, leading * inner)
    } else {
        let e = st.need(st.need(e, p + ".weight_g"@), p + ".weight_v"@);
        let e = wrong_len(e, p + ".weight_g"@, st.data(p + ".weight_g"@), leading);
        wrong_len(e, p + ".weight_v"@, st.data(p + ".weight_v"@), leading * inner)
    }
}

/// The kernel `p`.
pub open spec fn kernel_data(st: &Checkpoint, p: Seq<char>, leading: int, inner: int) -> Seq<Scalar> {
    if st.lookup(p + ".weight"@) is Some {
        st.data(p + ".weight"@)
    } else {
        fused_norm(st.data(p + ".weight_g"@), st.data(p + ".weight_v"@), leading, inner)
    }
}

fn load_mimi_norm_conv_weight(ld: &mut Loader, conv_prefix: &str, leading: usize, inner: usize) -> (r: Data)
    requires
        leading * inner <= usize::MAX,
    ensures
        final(ld).st == old(ld).st,
        final(ld).fault() == kernel_need(
            old(ld).st,
            old(ld).fault(),
            conv_prefix@,
            leading as int,
            inner as int,
        ),
        final(ld).fault() is None ==> r@ == kernel_data(
            old(ld).st,
            conv_prefix@,
            leading as int,
            inner as int,
        ),
{
    let direct = join(conv_prefix, ".weight");
    if ld.st.contains(direct.as_str()) {
        return ld.take_len(direct.as_str(), leading * inner);
    }
    let g_name = join(conv_prefix, ".weight_g");
    let v_name = join(conv_prefix, ".weight_v");
    let g = ld.take(g_name.as_str());
    let v = ld.take(v_name.as_str());
    ld.expect_len(g_name.as_str(), &g, leading);
    ld.expect_len(v_name.as_str(), &v, leading * inner);
    if ld.error.is_none() {
        Arc::new(fuse_weight_norm(&g, &v, leading, inner))
    } else {
        v
    }
}

/// Sizes of a convolution to load; all of them have a bias.
#[derive(Debug, Clone, Copy, PartialEq, Eq, Structural)]
pub struct ConvSpec {
    pub in_channels: usize,
    pub out_channels: usize,
    pub kernel_size: usize,
    pub stride: usize,
    pub dilation: usize,
}

impl ConvSpec {
    /// Elements of the kernel for one output channel.
    pub open spec fn inner(&self) -> int {
        self.in_channels * self.kernel_size
    }

    pub open spec fn countable(&self) -> bool {
        &&& self.inner() <= usize::MAX
        &&& self.out_channels * self.inner() <= usize::MAX
    }

    /// The failure, after an earlier one, to load the convolution `p`.
    pub open spec fn need(&self, st: &Checkpoint, e: Option<Fault>, p: Seq<char>) -> Option<Fault> {
        let e = kernel_need(st, e, p, self.out_channels as int, self.inner());
        st.need_len(e, p + ".bias"@, self.out_channels as int)
    }

    /// Whether `w` is the convolution `p` of the checkpoint.
    pub open spec fn loaded(&self, st: &Checkpoint, p: Seq<char>, w: &LazyConv1dWeights) -> bool {
        &&& w.weight@ == kernel_data(st, p, self.out_channels as int, self.inner())
        &&& bias_data(w.bias) == Some(st.data(p + ".bias"@))
        &&& w.in_channels == self.in_channels
        &&& w.out_channels == self.out_channels
        &&& w.kernel_size == self.kernel_size
        &&& w.stride == self.stride
        &&& w.dilation == self.dilation
        &&& w.groups == 1
    }
}

fn load_mimi_conv1d(ld: &mut Loader, conv_prefix: &str, spec: ConvSpec) -> (r: LazyConv1dWeights)
    requires
        spec.countable(),
    ensures
        final(ld).st == old(ld).st,
        final(ld).fault() == spec.need(old(ld).st, old(ld).fault(), conv_prefix@),
        final(ld).fault() is None ==> spec.loaded(old(ld).st, conv_prefix@, &r),
{
    let inner: usize = spec.in_channels * spec.kernel_size;
    let weight = load_mimi_norm_conv_weight(ld, conv_prefix, spec.out_channels, inner);
    let bias = ld.take_len(join(conv_prefix, ".bias").as_str(), spec.out_channels);
    LazyConv1dWeights {
        weight,
        bias: Some(bias),
        in_channels: spec.in_channels,
        out_channels: spec.out_channels,
        kernel_size: spec.kernel_size,
        stride: spec.stride,
        dilation: spec.dilation,
        groups: 1,
    }
}

/// The failure, after an earlier one, to load the transposed convolution `p`.
pub open spec fn transpose_need(
    st: &Checkpoint,
    e: Option<Fault>,
    p: Seq<char>,
    c_in: int,
    c_out: int,
    k: int,
) -> Option<Fault> {
    let e = kernel_need(st, e, p, c_in, c_out * k);
    st.need_len(e, p + ".bias"@, c_out)
}

/// Whether `w` is the transposed convolution `p` of the checkpoint.
pub open spec fn transpose_loaded(
    st: &Checkpoint,
    p: Seq<char>,
    c_in: int,
    c_out: int,
    k: int,
    stride: int,
    w: &LazyConvTranspose1dWeights,
) -> bool {
    &&& w.weight@ == kernel_data(st, p, c_in, c_out * k)
    &&& bias_data(w.bias) == Some(st.data(p + ".bias"@))
    &&& w.in_channels == c_in
    &&& w.out_channels == c_out
    &&& w.kernel_size == k
    &&& w.stride == stride
    &&& w.groups == 1
}

fn load_mimi_conv_transpose1d(
    ld: &mut Loader,
    conv_prefix: &str,
    in_channels: usize,
    out_channels: usize,
    kernel_size: usize,
    stride: usize,
) -> (r: LazyConvTranspose1dWeights)
    requires
        out_channels * kernel_size <= usize::MAX,
        in_channels * (out_channels * kernel_size) <= usize::MAX,
    ensures
        final(ld).st == old(ld).st,
        final(ld).fault() == transpose_need(
            old(ld).st,
            old(ld).fault(),
            conv_prefix@,
            in_channels as int,
            out_channels as int,
            kernel_size as int,
        ),
        final(ld).fault() is None ==> transpose_loaded(
            old(ld).st,
            conv_prefix@,
            in_channels as int,
            out_channels as int,
            kernel_size as int,
            stride as int,
            &r,
        ),
{
    let inner: usize = out_channels * kernel_size;
    let weight = load_mimi_norm_conv_weight(ld, conv_prefix, in_channels, inner);
    let bias = ld.take_len(join(conv_prefix, ".bias").as_str(), out_channels);
    LazyConvTranspose1dWeights {
        weight,
        bias: Some(bias),
        in_channels,
        out_channels,
        kernel_size,
        stride,
        groups: 1,
    }
}

/// `base` to the power of `n`.
pub open spec fn power(base: int, n: int) -> int
    decreases n,
{
    if n <= 0 {
        1
    } else {
        power(base, n - 1) * base
    }
}

/// The first convolution of a residual block over `dim` channels.
pub open spec fn block_conv1(cfg: &SeaNetConfig, dim: int, dilation: int) -> ConvSpec {
    ConvSpec {
        in_channels: dim as usize,
        out_channels: (dim / cfg.compress as int) as usize,
        kernel_size: cfg.residual_kernel_size,
        stride: 1,
        dilation: dilation as usize,
    }
}

/// The second convolution.
pub open spec fn block_conv2(cfg: &SeaNetConfig, dim: int) -> ConvSpec {
    pointwise(dim / cfg.compress as int, dim)
}

/// A convolution of one tap.
pub open spec fn pointwise(c_in: int, c_out: int) -> ConvSpec {
    ConvSpec {
        in_channels: c_in as usize,
        out_channels: c_out as usize,
        kernel_size: 1,
        stride: 1,
        dilation: 1,
    }
}

/// The tensors of a residual block can be counted.
pub open spec fn block_countable(cfg: &SeaNetConfig, dim: int, dilation: int) -> bool {
    &&& 0 <= dim <= usize::MAX
    &&& 0 <= dilation <= usize::MAX
    &&& block_conv1(cfg, dim, dilation).countable()
    &&& block_conv2(cfg, dim).countable()
    &&& pointwise(dim, dim).countable()
}

/// The failure, after an earlier one, to load the residual block `p`.
pub open spec fn block_need(
    st: &Checkpoint,
    cfg: &SeaNetConfig,
    e: Option<Fault>,
    p: Seq<char>,
    dim: int,
    dilation: int,
) -> Option<Fault> {
    let e = block_conv1(cfg, dim, dilation).need(st, e, p + ".block.1.conv"@);
    let e = block_conv2(cfg, dim).need(st, e, p + ".block.3.conv"@);
    if cfg.true_skip {
        e
    } else {
        pointwise(dim, dim).need(st, e, p + ".shortcut.conv"@)
    }
}

/// Whether `w` is the residual block `p` of the checkpoint.
pub open spec fn block_loaded(
    st: &Checkpoint,
    cfg: &SeaNetConfig,
    p: Seq<char>,
    dim: int,
    dilation: int,
    w: &SeaNetResnetBlockWeights,
) -> bool {
    &&& w.convs@.len() == 2
    &&& block_conv1(cfg, dim, dilation).loaded(st, p + ".block.1.conv"@, &w.convs@[0])
    &&& block_conv2(cfg, dim).loaded(st, p + ".block.3.conv"@, &w.convs@[1])
    &&& match w.shortcut {
        None => cfg.true_skip,
        Some(s) => !cfg.true_skip && pointwise(dim, dim).loaded(st, p + ".shortcut.conv"@, &s),
    }
}

fn load_seanet_resnet_block(ld: &mut Loader, cfg: &SeaNetConfig, prefix: &str, dim: usize, dilation: usize) -> (r:
    SeaNetResnetBlockWeights)
    requires
        cfg.compress > 0,
        block_countable(cfg, dim as int, dilation as int),
    ensures
        final(ld).st == old(ld).st,
        final(ld).fault() == block_need(
            old(ld).st,
            cfg,
            old(ld).fault(),
            prefix@,
            dim as int,
            dilation as int,
        ),
        final(ld).fault() is None ==> block_loaded(
            old(ld).st,
            cfg,
            prefix@,
            dim as int,
            dilation as int,
            &r,
        ),
{
    let hidden: usize = dim / cfg.compress;
    let c1 = ConvSpec {
        in_channels: dim,
        out_channels: hidden,
        kernel_size: cfg.residual_kernel_size,
        stride: 1,
        dilation,
    };
    let c2 = ConvSpec {
        in_channels: hidden,
        out_channels: dim,
        kernel_size: 1,
        stride: 1,
        dilation: 1,
    };
    let conv0 = load_mimi_conv1d(ld, join(prefix, ".block.1.conv").as_str(), c1);
    let conv1 = load_mimi_conv1d(ld, join(prefix, ".block.3.conv").as_str(), c2);
    let shortcut = if cfg.true_skip {
        None
    } else {
        let c3 = ConvSpec {
            in_channels: dim,
            out_channels: dim,
            kernel_size: 1,
            stride: 1,
            dilation: 1,
        };
        Some(load_mimi_conv1d(ld, join(prefix, ".shortcut.conv").as_str(), c3))
    };
    SeaNetResnetBlockWeights { convs: vec![conv0, conv1], shortcut }
}

/// Name prefix of layer `i` of a stack.
pub open spec fn layer_name(p: Seq<char>, i: int) -> Seq<char> {
    p + ".layers."@ + decimal(i)
}

fn layer_string(prefix: &str, i: usize) -> (r: String)
    ensures
        r@ == layer_name(prefix@, i as int),
{
    numbered(join(prefix, ".layers.").as_str(), i)
}

/// The failure, after an earlier one, to load `n` residual blocks, which stand
/// at the layers from `at` on.
pub open spec fn residuals_need(
    st: &Checkpoint,
    cfg: &SeaNetConfig,
    e: Option<Fault>,
    p: Seq<char>,
    at: int,
    dim: int,
    n: int,
) -> Option<Fault>
    decreases n,
{
    if n <= 0 {
        e
    } else {
        block_need(
            st,
            cfg,
            residuals_need(st, cfg, e, p, at, dim, n - 1),
            layer_name(p, at + n - 1),
            dim,
            power(cfg.dilation_base as int, n - 1),
        )
    }
}

/// Whether `blocks` are the residual blocks of the layers from `at` on.
pub open spec fn residuals_loaded(
    st: &Checkpoint,
    cfg: &SeaNetConfig,
    p: Seq<char>,
    at: int,
    dim: int,
    blocks: Seq<SeaNetResnetBlockWeights>,
) -> bool {
    &&& blocks.len() == cfg.n_residual_layers
    &&& forall|j: int|
        0 <= j < blocks.len() ==> block_loaded(
            st,
            cfg,
            layer_name(p, at + j),
            dim,
            power(cfg.dilation_base as int, j),
            &#[trigger] blocks[j],
        )
}

/// The tensors of the residual blocks over `dim` channels can be counted.
pub open spec fn residuals_countable(cfg: &SeaNetConfig, dim: int) -> bool {
    forall|j: int|
        0 <= j < cfg.n_residual_layers ==> block_countable(
            cfg,
            dim,
            #[trigger] power(cfg.dilation_base as int, j),
        )
}

pub proof fn block_need_keeps(
    st: &Checkpoint,
    cfg: &SeaNetConfig,
    e: Option<Fault>,
    p: Seq<char>,
    dim: int,
    dilation: int,
)
    ensures
        block_need(st, cfg, e, p, dim, dilation) is None ==> e is None,
{
}

pub proof fn residuals_need_keeps(
    st: &Checkpoint,
    cfg: &SeaNetConfig,
    e: Option<Fault>,
    p: Seq<char>,
    at: int,
    dim: int,
    n: int,
)
    ensures
        residuals_need(st, cfg, e, p, at, dim, n) is None ==> e is None,
    decreases n,
{
    if n > 0 {
        residuals_need_keeps(st, cfg, e, p, at, dim, n - 1);
    }
}

fn load_residuals(ld: &mut Loader, cfg: &SeaNetConfig, prefix: &str, at: usize, dim: usize) -> (r: Vec<
    SeaNetResnetBlockWeights,
>)
    requires
        cfg.compress > 0,
        residuals_countable(cfg, dim as int),
        at + cfg.n_residual_layers <= usize::MAX,
    ensures
        final(ld).st == old(ld).st,
        final(ld).fault() == residuals_need(
            old(ld).st,
            cfg,
            old(ld).fault(),
            prefix@,
            at as int,
            dim as int,
            cfg.n_residual_layers as int,
        ),
        final(ld).fault() is None ==> residuals_loaded(
            old(ld).st,
            cfg,
            prefix@,
            at as int,
            dim as int,
            r@,
        ),
{
    let ghost st = ld.st;
    let ghost e = ld.fault();
    let n: usize = cfg.n_residual_layers;
    let mut blocks: Vec<SeaNetResnetBlockWeights> = Vec::new();
    let mut dilation: usize = 1;
    let mut j: usize = 0;
    while j < n
        invariant
            cfg.compress > 0,
            n == cfg.n_residual_layers,
            residuals_countable(cfg, dim as int),
            at + n <= usize::MAX,
            j <= n,
            j < n ==> dilation == power(cfg.dilation_base as int, j as int),
            ld.st == st,
            ld.fault() == residuals_need(st, cfg, e, prefix@, at as int, dim as int, j as int),
            blocks@.len() == j,
            ld.fault() is None ==> forall|i: int|
                0 <= i < j ==> block_loaded(
                    st,
                    cfg,
                    layer_name(prefix@, at + i),
                    dim as int,
                    power(cfg.dilation_base as int, i),
                    &#[trigger] blocks@[i],
                ),
        decreases n - j,
    {
        assert(block_countable(cfg, dim as int, power(cfg.dilation_base as int, j as int)));
        let name = layer_string(prefix, at + j);
        proof {
            block_need_keeps(st, cfg, ld.fault(), name@, dim as int, dilation as int);
        }
        let block = load_seanet_resnet_block(ld, cfg, name.as_str(), dim, dilation);
        blocks.push(block);
        if j + 1 < n {
            assert(block_countable(cfg, dim as int, power(cfg.dilation_base as int, j + 1)));
            dilation = dilation * cfg.dilation_base;
        }
        j = j + 1;
    }
    blocks
}

impl SeaNetConfig {
    /// Layers of one stage: its residual blocks, an activation and a strided
    /// convolution.
    pub open spec fn stride_layers(&self) -> int {
        self.n_residual_layers + 2
    }

    /// First layer of stage `s`.
    pub open spec fn stage_at(&self, s: int) -> int {
        1 + s * self.stride_layers()
    }

    pub open spec fn stages(&self) -> int {
        self.ratios@.len() as int
    }

    /// Channels before encoder stage `s`.
    pub open spec fn encoder_dim(&self, s: int) -> int {
        power(2, s) * self.n_filters
    }

    /// Stride of encoder stage `s`.
    pub open spec fn encoder_ratio(&self, s: int) -> int {
        self.ratios@[self.stages() - 1 - s] as int
    }

    pub open spec fn encoder_init(&self) -> ConvSpec {
        ConvSpec {
            in_channels: self.channels,
            out_channels: self.n_filters,
            kernel_size: self.kernel_size,
            stride: 1,
            dilation: 1,
        }
    }

    /// The strided convolution of encoder stage `s`.
    pub open spec fn encoder_down(&self, s: int) -> ConvSpec {
        ConvSpec {
            in_channels: self.encoder_dim(s) as usize,
            out_channels: (self.encoder_dim(s) * 2) as usize,
            kernel_size: (self.encoder_ratio(s) * 2) as usize,
            stride: self.encoder_ratio(s) as usize,
            dilation: 1,
        }
    }

    pub open spec fn encoder_last(&self) -> ConvSpec {
        ConvSpec {
            in_channels: self.encoder_dim(self.stages()) as usize,
            out_channels: self.dimension,
            kernel_size: self.last_kernel_size,
            stride: 1,
            dilation: 1,
        }
    }

    /// The tensors of an encoder can be counted.
    pub open spec fn encoder_loadable(&self) -> bool {
        &&& self.compress > 0
        &&& self.encoder_init().countable()
        &&& self.n_residual_layers + 2 <= usize::MAX
        &&& self.stage_at(self.stages()) + 1 <= usize::MAX
        &&& power(2, self.stages()) <= usize::MAX
        &&& self.encoder_dim(self.stages()) <= usize::MAX
        &&& self.encoder_last().countable()
        &&& forall|s: int|
            0 <= s < self.stages() ==> {
                &&& #[trigger] self.encoder_dim(s) * 2 <= usize::MAX
                &&& self.encoder_ratio(s) * 2 <= usize::MAX
                &&& self.encoder_down(s).countable()
                &&& residuals_countable(self, self.encoder_dim(s))
            }
    }
}

pub proof fn power2_grows(s: int)
    requires
        s >= 0,
    ensures
        power(2, s) >= 1,
        power(2, s + 1) == 2 * power(2, s),
    decreases s,
{
    if s > 0 {
        power2_grows(s - 1);
    }
}

proof fn power2_monotone(s: int, t: int)
    requires
        0 <= s <= t,
    ensures
        1 <= power(2, s) <= power(2, t),
    decreases t - s,
{
    power2_grows(s);
    if s < t {
        power2_monotone(s + 1, t);
    }
}

/// The failure, after an earlier one, to load the first `n` encoder stages.
pub open spec fn encoder_stages_need(
    st: &Checkpoint,
    cfg: &SeaNetConfig,
    e: Option<Fault>,
    p: Seq<char>,
    n: int,
) -> Option<Fault>
    decreases n,
{
    if n <= 0 {
        e
    } else {
        let s = n - 1;
        let e = encoder_stages_need(st, cfg, e, p, s);
        let at = cfg.stage_at(s);
        let res = cfg.n_residual_layers as int;
        let e = residuals_need(st, cfg, e, p, at, cfg.encoder_dim(s), res);
        cfg.encoder_down(s).need(st, e, layer_name(p, at + res + 1) + ".conv"@)
    }
}

/// Whether `w` is encoder stage `s` of the checkpoint.
pub open spec fn encoder_stage_loaded(
    st: &Checkpoint,
    cfg: &SeaNetConfig,
    p: Seq<char>,
    s: int,
    w: &SeaNetEncoderLayerWeights,
) -> bool {
    let at = cfg.stage_at(s);
    &&& residuals_loaded(st, cfg, p, at, cfg.encoder_dim(s), w.residuals@)
    &&& cfg.encoder_down(s).loaded(
        st,
        layer_name(p, at + cfg.n_residual_layers + 1) + ".conv"@,
        &w.downsample,
    )
}

impl SeaNetEncoderWeights {
    /// Why a checkpoint cannot be loaded.
    pub open spec fn load_failure(st: &Checkpoint, p: Seq<char>, cfg: &SeaNetConfig) -> Option<Fault> {
        SeaNetEncoderWeights::need(st, None, p, cfg)
    }

    /// The failure, after an earlier one, to load the encoder `p`.
    pub open spec fn need(st: &Checkpoint, e: Option<Fault>, p: Seq<char>, cfg: &SeaNetConfig) -> Option<Fault> {
        let e = cfg.encoder_init().need(st, e, layer_name(p, 0) + ".conv"@);
        let e = encoder_stages_need(st, cfg, e, p, cfg.stages());
        cfg.encoder_last().need(st, e, layer_name(p, cfg.stage_at(cfg.stages()) + 1) + ".conv"@)
    }

    /// Whether this is the encoder `p` of the checkpoint.
    pub open spec fn loaded(&self, st: &Checkpoint, p: Seq<char>, cfg: &SeaNetConfig) -> bool {
        &&& cfg.encoder_init().loaded(st, layer_name(p, 0) + ".conv"@, &self.init_conv)
        &&& self.layers@.len() == cfg.stages()
        &&& forall|s: int|
            0 <= s < self.layers@.len() ==> encoder_stage_loaded(
                st,
                cfg,
                p,
                s,
                &#[trigger] self.layers@[s],
            )
        &&& cfg.encoder_last().loaded(
            st,
            layer_name(p, cfg.stage_at(cfg.stages()) + 1) + ".conv"@,
            &self.final_conv,
        )
    }

    pub(crate) fn load(ld: &mut Loader, prefix: &str, cfg: &SeaNetConfig) -> (r: Self)
        requires
            cfg.encoder_loadable(),
        ensures
            final(ld).st == old(ld).st,
            final(ld).fault() == SeaNetEncoderWeights::need(old(ld).st, old(ld).fault(), prefix@, cfg),
            final(ld).fault() is None ==> old(ld).fault() is None,
            final(ld).fault() is None ==> r.loaded(old(ld).st, prefix@, cfg),
    {
        let ghost st = ld.st;
        let res: usize = cfg.n_residual_layers;
        let count: usize = cfg.ratios.len();
        let ghost last = cfg.stages();
        proof {
            assert(cfg.stage_at(0) == 1) by (nonlinear_arith)
                requires
                    cfg.stage_at(0) == 1 + 0 * cfg.stride_layers(),
            ;
        }
        let init_spec = ConvSpec {
            in_channels: cfg.channels,
            out_channels: cfg.n_filters,
            kernel_size: cfg.kernel_size,
            stride: 1,
            dilation: 1,
        };
        let name0 = join(layer_string(prefix, 0).as_str(), ".conv");
        let init_conv = load_mimi_conv1d(ld, name0.as_str(), init_spec);
        let ghost e0 = ld.fault();
        let mut mult: usize = 1;
        let mut layer_idx: usize = 1;
        let mut layers: Vec<SeaNetEncoderLayerWeights> = Vec::new();
        let mut s: usize = 0;
        while s < count
            invariant
                cfg.encoder_loadable(),
                last == cfg.stages() == count,
                res == cfg.n_residual_layers,
                s <= count,
                mult == power(2, s as int),
                layer_idx == cfg.stage_at(s as int),
                ld.st == st,
                ld.fault() == encoder_stages_need(st, cfg, e0, prefix@, s as int),
                ld.fault() is None ==> e0 is None,
                layers@.len() == s,
                ld.fault() is None ==> forall|i: int|
                    0 <= i < s ==> encoder_stage_loaded(
                        st,
                        cfg,
                        prefix@,
                        i,
                        &#[trigger] layers@[i],
                    ),
            decreases count - s,
        {
            proof {
                power2_grows(s as int);
                power2_monotone(s + 1, last);
                assert(cfg.encoder_dim(s as int) * 2 <= usize::MAX);
                assert(cfg.encoder_dim(s as int) >= 0) by (nonlinear_arith)
                    requires
                        cfg.encoder_dim(s as int) == mult * cfg.n_filters,
                ;
                let w = cfg.stride_layers();
                assert((s + 1) * w == s * w + w && (s + 1) * w <= last * w) by (nonlinear_arith)
                    requires
                        s + 1 <= last,
                        w >= 0,
                ;
            }
            let ratio: usize = cfg.ratios[count - 1 - s];
            let dim: usize = mult * cfg.n_filters;
            let ghost f = ld.fault();
            let residuals = load_residuals(ld, cfg, prefix, layer_idx, dim);
            proof {
                residuals_need_keeps(
                    st,
                    cfg,
                    f,
                    prefix@,
                    layer_idx as int,
                    dim as int,
                    res as int,
                );
            }
            let spec = ConvSpec {
                in_channels: dim,
                out_channels: dim * 2,
                kernel_size: ratio * 2,
                stride: ratio,
                dilation: 1,
            };
            let name = join(layer_string(prefix, layer_idx + res + 1).as_str(), ".conv");
            let downsample = load_mimi_conv1d(ld, name.as_str(), spec);
            layers.push(SeaNetEncoderLayerWeights { residuals, downsample });
            layer_idx = layer_idx + (res + 2);
            mult = mult * 2;
            s = s + 1;
        }
        let last_spec = ConvSpec {
            in_channels: mult * cfg.n_filters,
            out_channels: cfg.dimension,
            kernel_size: cfg.last_kernel_size,
            stride: 1,
            dilation: 1,
        };
        let name1 = join(layer_string(prefix, layer_idx + 1).as_str(), ".conv");
        let final_conv = load_mimi_conv1d(ld, name1.as_str(), last_spec);
        SeaNetEncoderWeights { init_conv, layers, final_conv }
    }

    /// Loads the encoder `prefix` of a checkpoint. Layer numbers count the
    /// activations too; a convolution stands at `{prefix}.layers.{i}.conv`, those
    /// of a residual block at `{prefix}.layers.{i}.block.{1,3}.conv`.
    pub fn load_from_mmapped(st: &Checkpoint, prefix: &str, cfg: &SeaNetConfig) -> (r: Result<Self, LoadError>)
        requires
            cfg.encoder_loadable(),
        ensures
            match r {
                Ok(w) => SeaNetEncoderWeights::load_failure(st, prefix@, cfg) is None && w.loaded(
                    st,
                    prefix@,
                    cfg,
                ),
                Err(e) => SeaNetEncoderWeights::load_failure(st, prefix@, cfg) == Some(e@),
            },
    {
        let mut ld = Loader::new(st);
        let w = SeaNetEncoderWeights::load(&mut ld, prefix, cfg);
        match ld.error {
            Some(e) => Err(e),
            None => Ok(w),
        }
    }
}

impl SeaNetConfig {
    /// Channels before decoder stage `s`.
    pub open spec fn decoder_dim(&self, s: int) -> int {
        power(2, self.stages() - s) * self.n_filters
    }

    pub open spec fn decoder_init(&self) -> ConvSpec {
        ConvSpec {
            in_channels: self.dimension,
            out_channels: self.decoder_dim(0) as usize,
            kernel_size: self.kernel_size,
            stride: 1,
            dilation: 1,
        }
    }

    pub open spec fn decoder_last(&self) -> ConvSpec {
        ConvSpec {
            in_channels: self.n_filters,
            out_channels: self.channels,
            kernel_size: self.last_kernel_size,
            stride: 1,
            dilation: 1,
        }
    }

    /// The tensors of a decoder can be counted.
    pub open spec fn decoder_loadable(&self) -> bool {
        &&& self.compress > 0
        &&& power(2, self.stages()) <= usize::MAX
        &&& self.decoder_dim(0) <= usize::MAX
        &&& self.decoder_init().countable()
        &&& self.n_residual_layers + 2 <= usize::MAX
        &&& self.stage_at(self.stages()) + 1 <= usize::MAX
        &&& self.decoder_last().countable()
        &&& forall|s: int|
            0 <= s < self.stages() ==> {
                &&& #[trigger] self.decoder_dim(s) <= usize::MAX
                &&& self.ratios@[s] * 2 <= usize::MAX
                &&& (self.decoder_dim(s) / 2) * (self.ratios@[s] * 2) <= usize::MAX
                &&& self.decoder_dim(s) * ((self.decoder_dim(s) / 2) * (self.ratios@[s] * 2))
                    <= usize::MAX
                &&& residuals_countable(self, self.decoder_dim(s) / 2)
            }
    }
}

/// The failure, after an earlier one, to load the first `n` decoder stages.
pub open spec fn decoder_stages_need(
    st: &Checkpoint,
    cfg: &SeaNetConfig,
    e: Option<Fault>,
    p: Seq<char>,
    n: int,
) -> Option<Fault>
    decreases n,
{
    if n <= 0 {
        e
    } else {
        let s = n - 1;
        let e = decoder_stages_need(st, cfg, e, p, s);
        let at = cfg.stage_at(s);
        let dim = cfg.decoder_dim(s);
        let e = transpose_need(
            st,
            e,
            layer_name(p, at + 1) + ".conv"@,
            dim,
            dim / 2,
            cfg.ratios@[s] * 2,
        );
        residuals_need(st, cfg, e, p, at + 2, dim / 2, cfg.n_residual_layers as int)
    }
}

/// Whether `w` is decoder stage `s` of the checkpoint.
pub open spec fn decoder_stage_loaded(
    st: &Checkpoint,
    cfg: &SeaNetConfig,
    p: Seq<char>,
    s: int,
    w: &SeaNetDecoderLayerWeights,
) -> bool {
    let at = cfg.stage_at(s);
    let dim = cfg.decoder_dim(s);
    &&& transpose_loaded(
        st,
        layer_name(p, at + 1) + ".conv"@,
        dim,
        dim / 2,
        cfg.ratios@[s] * 2,
        cfg.ratios@[s] as int,
        &w.upsample,
    )
    &&& residuals_loaded(st, cfg, p, at + 2, dim / 2, w.residuals@)
}

fn power_of_two(n: usize) -> (r: usize)
    requires
        power(2, n as int) <= usize::MAX,
    ensures
        r == power(2, n as int),
{
    let mut r: usize = 1;
    let mut i: usize = 0;
    while i < n
        invariant
            i <= n,
            power(2, n as int) <= usize::MAX,
            r == power(2, i as int),
        decreases n - i,
    {
        proof {
            power2_grows(i as int);
            power2_monotone(i + 1, n as int);
        }
        r = r * 2;
        i = i + 1;
    }
    r
}

impl SeaNetDecoderWeights {
    /// Why a checkpoint cannot be loaded.
    pub open spec fn load_failure(st: &Checkpoint, p: Seq<char>, cfg: &SeaNetConfig) -> Option<Fault> {
        SeaNetDecoderWeights::need(st, None, p, cfg)
    }

    /// The failure, after an earlier one, to load the decoder `p`.
    pub open spec fn need(st: &Checkpoint, e: Option<Fault>, p: Seq<char>, cfg: &SeaNetConfig) -> Option<Fault> {
        let e = cfg.decoder_init().need(st, e, layer_name(p, 0) + ".conv"@);
        let e = decoder_stages_need(st, cfg, e, p, cfg.stages());
        cfg.decoder_last().need(st, e, layer_name(p, cfg.stage_at(cfg.stages()) + 1) + ".conv"@)
    }

    /// Whether this is the decoder `p` of the checkpoint.
    pub open spec fn loaded(&self, st: &Checkpoint, p: Seq<char>, cfg: &SeaNetConfig) -> bool {
        &&& cfg.decoder_init().loaded(st, layer_name(p, 0) + ".conv"@, &self.init_conv)
        &&& self.layers@.len() == cfg.stages()
        &&& forall|s: int|
            0 <= s < self.layers@.len() ==> decoder_stage_loaded(
                st,
                cfg,
                p,
                s,
                &#[trigger] self.layers@[s],
            )
        &&& cfg.decoder_last().loaded(
            st,
            layer_name(p, cfg.stage_at(cfg.stages()) + 1) + ".conv"@,
            &self.final_conv,
        )
    }

    pub(crate) fn load(ld: &mut Loader, prefix: &str, cfg: &SeaNetConfig) -> (r: Self)
        requires
            cfg.decoder_loadable(),
        ensures
            final(ld).st == old(ld).st,
            final(ld).fault() == SeaNetDecoderWeights::need(old(ld).st, old(ld).fault(), prefix@, cfg),
            final(ld).fault() is None ==> old(ld).fault() is None,
            final(ld).fault() is None ==> r.loaded(old(ld).st, prefix@, cfg),
    {
        let ghost st = ld.st;
        let res: usize = cfg.n_residual_layers;
        let count: usize = cfg.ratios.len();
        let ghost last = cfg.stages();
        proof {
            assert(cfg.stage_at(0) == 1) by (nonlinear_arith)
                requires
                    cfg.stage_at(0) == 1 + 0 * cfg.stride_layers(),
            ;
        }
        let mut mult: usize = power_of_two(count);
        let init_spec = ConvSpec {
            in_channels: cfg.dimension,
            out_channels: mult * cfg.n_filters,
            kernel_size: cfg.kernel_size,
            stride: 1,
            dilation: 1,
        };
        let name0 = join(layer_string(prefix, 0).as_str(), ".conv");
        let init_conv = load_mimi_conv1d(ld, name0.as_str(), init_spec);
        let ghost e0 = ld.fault();
        let mut layer_idx: usize = 1;
        let mut layers: Vec<SeaNetDecoderLayerWeights> = Vec::new();
        let mut s: usize = 0;
        while s < count
            invariant
                cfg.decoder_loadable(),
                last == cfg.stages() == count,
                res == cfg.n_residual_layers,
                s <= count,
                mult == power(2, last - s),
                layer_idx == cfg.stage_at(s as int),
                ld.st == st,
                ld.fault() == decoder_stages_need(st, cfg, e0, prefix@, s as int),
                ld.fault() is None ==> e0 is None,
                layers@.len() == s,
                ld.fault() is None ==> forall|i: int|
                    0 <= i < s ==> decoder_stage_loaded(
                        st,
                        cfg,
                        prefix@,
                        i,
                        &#[trigger] layers@[i],
                    ),
            decreases count - s,
        {
            proof {
                power2_grows(last - s - 1);
                assert(cfg.decoder_dim(s as int) <= usize::MAX);
                assert(cfg.decoder_dim(s as int) >= 0) by (nonlinear_arith)
                    requires
                        cfg.decoder_dim(s as int) == mult * cfg.n_filters,
                ;
                let w = cfg.stride_layers();
                assert((s + 1) * w == s * w + w && (s + 1) * w <= last * w) by (nonlinear_arith)
                    requires
                        s + 1 <= last,
                        w >= 0,
                ;
            }
            let ratio: usize = cfg.ratios[s];
            let dim: usize = mult * cfg.n_filters;
            let out_dim: usize = dim / 2;
            let name = join(layer_string(prefix, layer_idx + 1).as_str(), ".conv");
            let upsample = load_mimi_conv_transpose1d(
                ld,
                name.as_str(),
                dim,
                out_dim,
                ratio * 2,
                ratio,
            );
            let ghost f = ld.fault();
            let residuals = load_residuals(ld, cfg, prefix, layer_idx + 2, out_dim);
            proof {
                residuals_need_keeps(
                    st,
                    cfg,
                    f,
                    prefix@,
                    layer_idx + 2,
                    out_dim as int,
                    res as int,
                );
            }
            layers.push(SeaNetDecoderLayerWeights { upsample, residuals });
            layer_idx = layer_idx + (res + 2);
            mult = mult / 2;
            s = s + 1;
        }
        let last_spec = ConvSpec {
            in_channels: cfg.n_filters,
            out_channels: cfg.channels,
            kernel_size: cfg.last_kernel_size,
            stride: 1,
            dilation: 1,
        };
        let name1 = join(layer_string(prefix, layer_idx + 1).as_str(), ".conv");
        let final_conv = load_mimi_conv1d(ld, name1.as_str(), last_spec);
        SeaNetDecoderWeights { init_conv, layers, final_conv }
    }

    /// Loads the decoder `prefix` of a checkpoint, with layer numbers as in the
    /// encoder.
    pub fn load_from_mmapped(st: &Checkpoint, prefix: &str, cfg: &SeaNetConfig) -> (r: Result<Self, LoadError>)
        requires
            cfg.decoder_loadable(),
        ensures
            match r {
                Ok(w) => SeaNetDecoderWeights::load_failure(st, prefix@, cfg) is None && w.loaded(
                    st,
                    prefix@,
                    cfg,
                ),
                Err(e) => SeaNetDecoderWeights::load_failure(st, prefix@, cfg) == Some(e@),
            },
    {
        let mut ld = Loader::new(st);
        let w = SeaNetDecoderWeights::load(&mut ld, prefix, cfg);
        match ld.error {
            Some(e) => Err(e),
            None => Ok(w),
        }
    }
}

} // verus!
