//! MobileNetV4: an image backbone of convolutional, edge-residual, universal
//! bottleneck and multi-query attention blocks, with an optional classifier.
//!
//! `image -> stem -> 5 stages of blocks -> global mean -> head`

use crate::batch_norm::{bn_loaded, bn_need, load_batch_norm, BatchNormParams};
use crate::checkpoint::{decimal, join, loaded_matrix, numbered, Checkpoint, Loader};
use crate::error::{first, Error, Fault, LoadError};
use crate::extents::{
    broadcast_mul_under, broadcast_to_has, channel_affine_keeps, constant_has, conv2d_has, extents,
    has, odd_windows, per_channel_has, permute_axes, pool_has, products, reshape_has, shrunk,
};
use crate::lazy::{outcome, LazyTensor, Tensor, WeightStorage};
use crate::scalar::{fill, filled, inv_sqrt64, one, zero, Data, Scalar};
use std::sync::Arc;
use vstd::prelude::*;

verus! {

#[derive(Debug, Clone, Copy, PartialEq, Eq, Structural)]
pub enum Mv4Activation {
    Relu,
    Gelu,
}

/// What one block is.
#[derive(Debug, Clone, Copy, PartialEq, Eq, Structural)]
pub enum BlockSpec {
    /// Convolution, normalisation, activation.
    Convolutional { out_channels: usize, kernel: usize, stride: usize },
    /// An expanding convolution, then a pointwise one.
    EdgeResidual { out_channels: usize, kernel: usize, stride: usize, expand: usize },
    /// Optional depthwise, expanding pointwise, optional depthwise, projecting
    /// pointwise convolution.
    UniversalBottleneck {
        out_channels: usize,
        start_kernel: usize,
        mid_kernel: usize,
        stride: usize,
        expand: usize,
    },
    /// Multi-query attention: `heads` query streams share one key and one value
    /// stream of `kv_dim` channels, which are downsampled where `kv_stride` is
    /// above one. The stride must be one.
    Attention {
        out_channels: usize,
        heads: usize,
        kernel: usize,
        stride: usize,
        kv_dim: usize,
        kv_stride: usize,
    },
}

#[derive(Debug, Clone)]
pub struct Mv4Config {
    pub stem_dim: usize,
    pub activation: Mv4Activation,
    /// The blocks of the five stages.
    pub stages: [Vec<BlockSpec>; 5],
    pub head_in_channels: usize,
    pub head_out_channels: usize,
}

/// Channels that a block yields.
pub open spec fn block_out(spec: BlockSpec) -> int {
    match spec {
        BlockSpec::Convolutional { out_channels, .. } => out_channels as int,
        BlockSpec::EdgeResidual { out_channels, .. } => out_channels as int,
        BlockSpec::UniversalBottleneck { out_channels, .. } => out_channels as int,
        BlockSpec::Attention { out_channels, .. } => out_channels as int,
    }
}

/// Channels before block `b` of a stage that reads `first` channels.
pub open spec fn channels_before(stage: Seq<BlockSpec>, b: int, first: int) -> int {
    if b <= 0 {
        first
    } else {
        block_out(stage[b - 1])
    }
}

impl Mv4Config {
    /// The blocks of one stage.
    pub open spec fn stage(&self, s: int) -> Seq<BlockSpec> {
        self.stages@[s]@
    }

    /// Channels that stage `s` reads.
    pub open spec fn stage_in(&self, s: int) -> int
        decreases s,
    {
        if s <= 0 {
            self.stem_dim as int
        } else {
            channels_before(
                self.stage(s - 1),
                self.stage(s - 1).len() as int,
                self.stage_in(s - 1),
            )
        }
    }

    /// Channels that block `b` of stage `s` reads.
    pub open spec fn block_in(&self, s: int, b: int) -> int {
        channels_before(self.stage(s), b, self.stage_in(s))
    }

    /// Number of blocks before stage `s`.
    pub open spec fn blocks_before(&self, s: int) -> int
        decreases s,
    {
        if s <= 0 {
            0
        } else {
            self.blocks_before(s - 1) + self.stage(s - 1).len()
        }
    }

    /// The stored tensors can be counted.
    pub open spec fn loadable(&self, nclasses: Option<usize>) -> bool {
        &&& self.stem_dim * 27 <= usize::MAX
        &&& forall|s: int, b: int|
            0 <= s < 5 && 0 <= b < self.stage(s).len() ==> block_countable(
                #[trigger] self.stage(s)[b],
                self.block_in(s, b),
            )
        &&& self.head_out_channels * self.head_in_channels <= usize::MAX
        &&& nclasses matches Some(n) ==> n * self.head_out_channels <= usize::MAX
    }

    /// The MobileNetV4-Conv-Small blocks.
    pub fn conv_small() -> (r: Self)
        ensures
            r.stem_dim == 32,
            r.activation == Mv4Activation::Relu,
            r.head_in_channels == 960,
            r.head_out_channels == 1280,
            r.stage(0) == seq![
                BlockSpec::Convolutional { out_channels: 32, kernel: 3, stride: 2 },
                BlockSpec::Convolutional { out_channels: 32, kernel: 1, stride: 1 },
            ],
            r.stage(1) == seq![
                BlockSpec::Convolutional { out_channels: 96, kernel: 3, stride: 2 },
                BlockSpec::Convolutional { out_channels: 64, kernel: 1, stride: 1 },
            ],
            r.stage(2) == seq![
                bottleneck(96, 5, 5, 2, 3),
                bottleneck(96, 0, 3, 1, 2),
                bottleneck(96, 0, 3, 1, 2),
                bottleneck(96, 0, 3, 1, 2),
                bottleneck(96, 0, 3, 1, 2),
                bottleneck(96, 3, 0, 1, 4),
            ],
            r.stage(3) == seq![
                bottleneck(128, 3, 3, 2, 6),
                bottleneck(128, 5, 5, 1, 4),
                bottleneck(128, 0, 5, 1, 4),
                bottleneck(128, 0, 5, 1, 3),
                bottleneck(128, 0, 3, 1, 4),
                bottleneck(128, 0, 3, 1, 4),
            ],
            r.stage(4) == seq![BlockSpec::Convolutional { out_channels: 960, kernel: 1, stride: 1 }],
    {
        let s0 = vec![
            BlockSpec::Convolutional { out_channels: 32, kernel: 3, stride: 2 },
            BlockSpec::Convolutional { out_channels: 32, kernel: 1, stride: 1 },
        ];
        let s1 = vec![
            BlockSpec::Convolutional { out_channels: 96, kernel: 3, stride: 2 },
            BlockSpec::Convolutional { out_channels: 64, kernel: 1, stride: 1 },
        ];
        let s2 = vec![
            uib(96, 5, 5, 2, 3),
            uib(96, 0, 3, 1, 2),
            uib(96, 0, 3, 1, 2),
            uib(96, 0, 3, 1, 2),
            uib(96, 0, 3, 1, 2),
            uib(96, 3, 0, 1, 4),
        ];
        let s3 = vec![
            uib(128, 3, 3, 2, 6),
            uib(128, 5, 5, 1, 4),
            uib(128, 0, 5, 1, 4),
            uib(128, 0, 5, 1, 3),
            uib(128, 0, 3, 1, 4),
            uib(128, 0, 3, 1, 4),
        ];
        let s4 = vec![BlockSpec::Convolutional { out_channels: 960, kernel: 1, stride: 1 }];
        Mv4Config {
            stem_dim: 32,
            activation: Mv4Activation::Relu,
            stages: [s0, s1, s2, s3, s4],
            head_in_channels: 960,
            head_out_channels: 1280,
        }
    }
}

pub open spec fn bottleneck(out: usize, start: usize, mid: usize, stride: usize, expand: usize) -> BlockSpec {
    BlockSpec::UniversalBottleneck {
        out_channels: out,
        start_kernel: start,
        mid_kernel: mid,
        stride,
        expand,
    }
}

fn uib(out: usize, start: usize, mid: usize, stride: usize, expand: usize) -> (r: BlockSpec)
    ensures
        r == bottleneck(out, start, mid, stride, expand),
{
    BlockSpec::UniversalBottleneck {
        out_channels: out,
        start_kernel: start,
        mid_kernel: mid,
        stride,
        expand,
    }
}

/// A convolution without bias, then a folded normalisation.
#[derive(Debug, Clone)]
pub struct Conv2dBnWeights {
    /// `[c_out, c_in / groups, k, k]`.
    pub w: Data,
    pub bn: BatchNormParams,
    pub c_in: usize,
    pub c_out: usize,
    pub k: usize,
    pub stride: usize,
    pub pad: usize,
    pub groups: usize,
}

#[derive(Debug, Clone)]
pub struct UibWeights {
    pub dw_start: Option<Conv2dBnWeights>,
    pub pw_exp: Conv2dBnWeights,
    pub dw_mid: Option<Conv2dBnWeights>,
    pub pw_proj: Conv2dBnWeights,
    /// A scale for each output channel.
    pub layer_scale_gamma: Option<Data>,
    pub skip: bool,
}

#[derive(Debug, Clone)]
pub struct EdgeResidualWeights {
    pub conv_exp: Conv2dBnWeights,
    pub conv_pwl: Conv2dBnWeights,
}

#[derive(Debug, Clone)]
pub struct MqaWeights {
    pub input_norm: BatchNormParams,
    pub query_proj: Conv2dBnWeights,
    pub key_down: Option<Conv2dBnWeights>,
    pub key_proj: Conv2dBnWeights,
    pub value_down: Option<Conv2dBnWeights>,
    pub value_proj: Conv2dBnWeights,
    pub output_proj: Conv2dBnWeights,
    pub heads: usize,
    pub kv_dim: usize,
    pub layer_scale_gamma: Option<Data>,
    pub skip: bool,
}

#[derive(Debug, Clone)]
pub enum BlockWeights {
    Convolutional(Conv2dBnWeights),
    EdgeResidual(EdgeResidualWeights),
    UniversalBottleneck(UibWeights),
    Attention(MqaWeights),
}

#[derive(Debug, Clone)]
pub struct Mv4HeadWeights {
    pub conv: Conv2dBnWeights,
    /// `[head_out_channels, classes]`.
    pub linear_w: WeightStorage,
    pub linear_b: Data,
}

#[derive(Debug, Clone)]
pub struct Mv4Weights {
    pub stem: Conv2dBnWeights,
    /// The blocks of all stages, in order.
    pub blocks: Vec<BlockWeights>,
    pub head: Option<Mv4HeadWeights>,
}

#[derive(Debug, Clone)]
pub struct Mv4Model {
    pub config: Mv4Config,
    pub weights: Mv4Weights,
}

impl Conv2dBnWeights {
    /// Convolution and normalisation of `x`.
    pub open spec fn value(&self, x: Tensor) -> Tensor {
        x.conv2d(
            Tensor::constant(
                self.w@,
                seq![
                    self.c_out as int,
                    self.c_in as int / self.groups as int,
                    self.k as int,
                    self.k as int,
                ],
            ),
            self.stride as int,
            self.pad as int,
            self.groups as int,
        ).channel_affine_4d(self.bn.w@, self.bn.b@)
    }

    /// The same where there is a convolution, else `x`.
    pub open spec fn maybe(c: Option<Conv2dBnWeights>, x: Tensor) -> Tensor {
        match c {
            None => x,
            Some(w) => w.value(x),
        }
    }
}

pub open spec fn activated(x: Tensor, act: Mv4Activation) -> Tensor {
    match act {
        Mv4Activation::Relu => x.relu(),
        Mv4Activation::Gelu => x.gelu(),
    }
}

/// `y`, scaled by channel where there is a scale, plus `x` where asked.
pub open spec fn scaled_skip(y: Tensor, gamma: Option<Data>, skip: bool, x: Tensor) -> Tensor {
    let z = match gamma {
        None => y,
        Some(g) => y.broadcast_mul(Tensor::per_channel(g@)),
    };
    if skip {
        z.add(x)
    } else {
        z
    }
}

/// A map of `(batch, kv_dim, h, w)` as keys or values for all heads,
/// `(batch, heads, h * w, kv_dim)`.
pub open spec fn shared_heads(t: Tensor, batch: int, heads: int, len: int, kv_dim: int) -> Tensor {
    t.reshape(seq![batch, kv_dim, len]).permute(seq![0, 2, 1]).reshape(
        seq![batch, 1, len, kv_dim],
    ).broadcast_to(seq![batch, heads, len, kv_dim])
}

impl MqaWeights {
    pub open spec fn normed(&self, x: Tensor) -> Tensor {
        x.channel_affine_4d(self.input_norm.w@, self.input_norm.b@)
    }

    pub open spec fn keys(&self, x: Tensor) -> Tensor {
        self.key_proj.value(Conv2dBnWeights::maybe(self.key_down, self.normed(x)))
    }

    pub open spec fn values(&self, x: Tensor) -> Tensor {
        self.value_proj.value(Conv2dBnWeights::maybe(self.value_down, self.normed(x)))
    }

    /// The attention block on `x (batch, c, h, w)`: queries at every position,
    /// one key and one value stream, possibly at fewer positions, for all
    /// heads.
    pub open spec fn value(&self, x: Tensor) -> Tensor {
        let batch = x.dim(0);
        let h = x.dim(2);
        let w = x.dim(3);
        let heads = self.heads as int;
        let d = self.kv_dim as int;
        let k = self.keys(x);
        let len = k.dim(2) * k.dim(3);
        if h * w > usize::MAX || len > usize::MAX || d * heads > usize::MAX {
            Tensor::invalid(Error::Shape)
        } else {
            let q = self.query_proj.value(self.normed(x)).reshape(
                seq![batch, heads, d, h * w],
            ).permute(seq![0, 1, 3, 2]).mul_scalar(inv_sqrt64(self.kv_dim));
            let ks = shared_heads(k, batch, heads, len, d);
            let vs = shared_heads(self.values(x), batch, heads, len, d);
            let ctx = q.matmul(ks.permute(seq![0, 1, 3, 2])).softmax_last_dim().matmul(vs);
            let o = ctx.permute(seq![0, 2, 1, 3]).reshape(seq![batch, h, w, d * heads]).permute(
                seq![0, 3, 1, 2],
            );
            scaled_skip(self.output_proj.value(o), self.layer_scale_gamma, self.skip, x)
        }
    }
}

impl UibWeights {
    pub open spec fn value(&self, x: Tensor, act: Mv4Activation) -> Tensor {
        let a = activated(self.pw_exp.value(Conv2dBnWeights::maybe(self.dw_start, x)), act);
        let b = match self.dw_mid {
            None => a,
            Some(c) => activated(c.value(a), act),
        };
        scaled_skip(self.pw_proj.value(b), self.layer_scale_gamma, self.skip, x)
    }
}

impl BlockWeights {
    /// What a block makes of `x (batch, c, h, w)`.
    pub open spec fn value(&self, x: Tensor, act: Mv4Activation) -> Tensor {
        match *self {
            BlockWeights::Convolutional(c) => activated(c.value(x), act),
            BlockWeights::EdgeResidual(er) => er.conv_pwl.value(
                activated(er.conv_exp.value(x), act),
            ),
            BlockWeights::UniversalBottleneck(u) => u.value(x, act),
            BlockWeights::Attention(m) => m.value(x),
        }
    }
}

/// The first `n` blocks, one after the other.
pub open spec fn blocks_value(blocks: Seq<BlockWeights>, n: int, x: Tensor, act: Mv4Activation) -> Tensor
    decreases n,
{
    if n <= 0 {
        x
    } else {
        blocks[n - 1].value(blocks_value(blocks, n - 1, x, act), act)
    }
}

/// Whether an optional convolution has groups.
pub open spec fn grouped_opt(c: Option<Conv2dBnWeights>) -> bool {
    c matches Some(w) ==> w.groups > 0
}

/// Every convolution of the block has groups.
pub open spec fn block_grouped(b: BlockWeights) -> bool {
    match b {
        BlockWeights::Convolutional(c) => c.groups > 0,
        BlockWeights::EdgeResidual(er) => er.conv_exp.groups > 0 && er.conv_pwl.groups > 0,
        BlockWeights::UniversalBottleneck(u) => {
            &&& grouped_opt(u.dw_start)
            &&& u.pw_exp.groups > 0
            &&& grouped_opt(u.dw_mid)
            &&& u.pw_proj.groups > 0
        },
        BlockWeights::Attention(m) => {
            &&& m.query_proj.groups > 0
            &&& grouped_opt(m.key_down)
            &&& m.key_proj.groups > 0
            &&& grouped_opt(m.value_down)
            &&& m.value_proj.groups > 0
            &&& m.output_proj.groups > 0
        },
    }
}

impl Mv4Weights {
    /// Every convolution has groups.
    pub open spec fn grouped(&self) -> bool {
        &&& self.stem.groups > 0
        &&& forall|i: int| 0 <= i < self.blocks@.len() ==> block_grouped(#[trigger] self.blocks@[i])
        &&& self.head matches Some(h) ==> h.conv.groups > 0
    }
}

impl Mv4Model {
    /// The feature map after the last block.
    pub open spec fn features(&self, image: Tensor) -> Tensor {
        let act = self.config.activation;
        blocks_value(
            self.weights.blocks@,
            self.weights.blocks@.len() as int,
            activated(self.weights.stem.value(image), act),
            act,
        )
    }

    /// Class logits where there is a head, else pooled features.
    pub open spec fn value(&self, image: Tensor) -> Tensor {
        let pooled = self.features(image).global_avg_pool_2d();
        let out = self.config.head_out_channels as int;
        match self.weights.head {
            None => pooled,
            Some(head) => activated(
                head.conv.value(pooled.reshape(seq![1, pooled.dim(1), 1, 1])),
                self.config.activation,
            ).reshape(seq![1, out]).affine(
                head.linear_w@,
                head.linear_b@,
                out,
                head.linear_b@.len() as int,
            ),
        }
    }

    /// Classifies `image (1, 3, h, w)`, or yields pooled features
    /// `(1, head_in_channels)` where there is no head.
    pub fn forward(&self, image: &LazyTensor) -> (r: Result<LazyTensor, Error>)
        requires
            image@.rank() == 4,
            image@.dim(1) == 3,
            self.weights.grouped(),
        ensures
            outcome(r, self.value(image@)),
    {
        let cfg = &self.config;
        let pooled = self.run(image).global_avg_pool_2d();
        match &self.weights.head {
            None => pooled.finish(),
            Some(head) => {
                let chw = pooled.reshape4(1, pooled.dim(1), 1, 1);
                let h = apply_conv_bn_act(&chw, &head.conv, cfg.activation);
                let flat = h.reshape2(1, cfg.head_out_channels);
                flat.affine(
                    head.linear_w.data(),
                    &head.linear_b,
                    cfg.head_out_channels,
                    head.linear_b.len(),
                ).finish()
            },
        }
    }

    /// The feature map after the last block, before pooling and head.
    pub fn forward_features(&self, image: &LazyTensor) -> (r: Result<LazyTensor, Error>)
        requires
            image@.rank() == 4,
            image@.dim(1) == 3,
            self.weights.grouped(),
        ensures
            outcome(r, self.features(image@)),
    {
        self.run(image).finish()
    }

    fn run(&self, image: &LazyTensor) -> (r: LazyTensor)
        requires
            self.weights.grouped(),
        ensures
            r@ == self.features(image@),
    {
        let act = self.config.activation;
        let mut x = apply_conv_bn_act(image, &self.weights.stem, act);
        let ghost x0 = x@;
        let mut i: usize = 0;
        while i < self.weights.blocks.len()
            invariant
                self.weights.grouped(),
                i <= self.weights.blocks@.len(),
                x@ == blocks_value(self.weights.blocks@, i as int, x0, act),
            decreases self.weights.blocks@.len() - i,
        {
            x = apply_block(&x, &self.weights.blocks[i], act);
            i = i + 1;
        }
        x
    }
}

/// Applies a folded normalisation.
pub fn apply_bn(x: &LazyTensor, bn: &BatchNormParams) -> (r: LazyTensor)
    ensures
        r@ == x@.channel_affine_4d(bn.w@, bn.b@),
{
    x.channel_affine_4d(&bn.w, &bn.b)
}

fn apply_conv_bn(x: &LazyTensor, c: &Conv2dBnWeights) -> (r: LazyTensor)
    requires
        c.groups > 0,
    ensures
        r@ == c.value(x@),
{
    let w = LazyTensor::const4(&c.w, c.c_out, c.c_in / c.groups, c.k, c.k);
    apply_bn(&x.conv2d(&w, c.stride, c.pad, c.groups), &c.bn)
}

/// Applies an activation.
pub fn apply_act(x: LazyTensor, act: Mv4Activation) -> (r: LazyTensor)
    ensures
        r@ == activated(x@, act),
{
    match act {
        Mv4Activation::Relu => x.relu(),
        Mv4Activation::Gelu => x.gelu(),
    }
}

fn apply_conv_bn_act(x: &LazyTensor, c: &Conv2dBnWeights, act: Mv4Activation) -> (r: LazyTensor)
    requires
        c.groups > 0,
    ensures
        r@ == activated(c.value(x@), act),
{
    apply_act(apply_conv_bn(x, c), act)
}

fn apply_maybe(x: &LazyTensor, c: &Option<Conv2dBnWeights>) -> (r: LazyTensor)
    requires
        grouped_opt(*c),
    ensures
        r@ == Conv2dBnWeights::maybe(*c, x@),
{
    match c {
        None => x.clone(),
        Some(w) => apply_conv_bn(x, w),
    }
}

fn apply_scale_skip(y: LazyTensor, gamma: &Option<Data>, skip: bool, x: &LazyTensor) -> (r: LazyTensor)
    ensures
        r@ == scaled_skip(y@, *gamma, skip, x@),
{
    let z = match gamma {
        None => y,
        Some(g) => y.broadcast_mul(&LazyTensor::per_channel(g)),
    };
    if skip {
        z.add(x)
    } else {
        z
    }
}

fn apply_block(x: &LazyTensor, b: &BlockWeights, act: Mv4Activation) -> (r: LazyTensor)
    requires
        block_grouped(*b),
    ensures
        r@ == b.value(x@, act),
{
    match b {
        BlockWeights::Convolutional(c) => apply_conv_bn_act(x, c, act),
        BlockWeights::EdgeResidual(er) => {
            let y = apply_conv_bn_act(x, &er.conv_exp, act);
            apply_conv_bn(&y, &er.conv_pwl)
        },
        BlockWeights::UniversalBottleneck(uib) => {
            let mut y = apply_conv_bn_act(&apply_maybe(x, &uib.dw_start), &uib.pw_exp, act);
            if let Some(dw) = &uib.dw_mid {
                y = apply_conv_bn_act(&y, dw, act);
            }
            apply_scale_skip(
                apply_conv_bn(&y, &uib.pw_proj),
                &uib.layer_scale_gamma,
                uib.skip,
                x,
            )
        },
        BlockWeights::Attention(mqa) => apply_mqa(x, mqa),
    }
}

fn share_heads(t: &LazyTensor, batch: usize, heads: usize, len: usize, kv_dim: usize) -> (r: LazyTensor)
    ensures
        r@ == shared_heads(t@, batch as int, heads as int, len as int, kv_dim as int),
{
    t.reshape3(batch, kv_dim, len).permute3(0, 2, 1).reshape4(batch, 1, len, kv_dim).broadcast_to4(
        batch,
        heads,
        len,
        kv_dim,
    )
}

fn apply_mqa(x: &LazyTensor, mqa: &MqaWeights) -> (r: LazyTensor)
    requires
        block_grouped(BlockWeights::Attention(*mqa)),
    ensures
        r@ == mqa.value(x@),
{
    let b: usize = x.dim(0);
    let h: usize = x.dim(2);
    let w: usize = x.dim(3);
    let heads: usize = mqa.heads;
    let kv_dim: usize = mqa.kv_dim;
    let normed = apply_bn(x, &mqa.input_norm);
    let k = apply_conv_bn(&apply_maybe(&normed, &mqa.key_down), &mqa.key_proj);
    match (h.checked_mul(w), k.dim(2).checked_mul(k.dim(3)), kv_dim.checked_mul(heads)) {
        (Some(hw), Some(kv_len), Some(width)) => {
            let q = apply_conv_bn(&normed, &mqa.query_proj).reshape4(b, heads, kv_dim, hw).permute4(
                0,
                1,
                3,
                2,
            ).mul_scalar(&Scalar::inv_sqrt64(kv_dim));
            let k_bc = share_heads(&k, b, heads, kv_len, kv_dim);
            let v = apply_conv_bn(&apply_maybe(&normed, &mqa.value_down), &mqa.value_proj);
            let v_bc = share_heads(&v, b, heads, kv_len, kv_dim);
            let ctx = q.matmul(&k_bc.permute4(0, 1, 3, 2)).softmax_last_dim().matmul(&v_bc);
            let o = ctx.permute4(0, 2, 1, 3).reshape4(b, h, w, width).permute4(0, 3, 1, 2);
            apply_scale_skip(
                apply_conv_bn(&o, &mqa.output_proj),
                &mqa.layer_scale_gamma,
                mqa.skip,
                x,
            )
        },
        _ => LazyTensor::invalid(Error::Shape),
    }
}

/// The normalisation constant, `1e-5` in double precision.
pub open spec fn mv4_eps() -> Scalar {
    Scalar::F64(0x3EE4_F8B5_88E3_68F1)
}

/// Sizes of a convolution to load.
#[derive(Debug, Clone, Copy, PartialEq, Eq, Structural)]
pub struct ConvSize {
    pub c_in: usize,
    pub c_out: usize,
    pub k: usize,
    pub stride: usize,
    pub pad: usize,
    pub groups: usize,
}

/// Number of elements of a square kernel.
pub open spec fn kernel_len(c_out: int, per_group: int, k: int) -> int {
    c_out * per_group * k * k
}

/// The elements of a square kernel can be counted.
pub open spec fn kernel_countable(c_out: int, per_group: int, k: int) -> bool {
    &&& c_out * per_group <= usize::MAX
    &&& c_out * per_group * k <= usize::MAX
    &&& kernel_len(c_out, per_group, k) <= usize::MAX
}

impl ConvSize {
    pub open spec fn len(&self) -> int {
        kernel_len(self.c_out as int, self.c_in as int / self.groups as int, self.k as int)
    }

    pub open spec fn countable(&self) -> bool {
        self.groups > 0 && kernel_countable(
            self.c_out as int,
            self.c_in as int / self.groups as int,
            self.k as int,
        )
    }

    /// Whether `w` has these sizes.
    pub open spec fn sizes(&self, w: &Conv2dBnWeights) -> bool {
        &&& w.c_in == self.c_in
        &&& w.c_out == self.c_out
        &&& w.k == self.k
        &&& w.stride == self.stride
        &&& w.pad == self.pad
        &&& w.groups == self.groups
    }
}

/// Sizes of a full convolution.
pub open spec fn dense(c_in: int, c_out: int, k: int, stride: int) -> ConvSize {
    ConvSize {
        c_in: c_in as usize,
        c_out: c_out as usize,
        k: k as usize,
        stride: stride as usize,
        pad: (k / 2) as usize,
        groups: 1,
    }
}

/// Sizes of a depthwise convolution.
pub open spec fn depthwise(c: int, k: int, stride: int) -> ConvSize {
    ConvSize {
        c_in: c as usize,
        c_out: c as usize,
        k: k as usize,
        stride: stride as usize,
        pad: (k / 2) as usize,
        groups: c as usize,
    }
}

fn dense_size(c_in: usize, c_out: usize, k: usize, stride: usize) -> (r: ConvSize)
    ensures
        r == dense(c_in as int, c_out as int, k as int, stride as int),
{
    ConvSize { c_in, c_out, k, stride, pad: k / 2, groups: 1 }
}

fn depthwise_size(c: usize, k: usize, stride: usize) -> (r: ConvSize)
    ensures
        r == depthwise(c as int, k as int, stride as int),
{
    ConvSize { c_in: c, c_out: c, k, stride, pad: k / 2, groups: c }
}

/// The tensors of a block that reads `in_ch` channels can be counted.
pub open spec fn block_countable(spec: BlockSpec, in_ch: int) -> bool {
    match spec {
        BlockSpec::Convolutional { out_channels, kernel, stride } => dense(
            in_ch,
            out_channels as int,
            kernel as int,
            stride as int,
        ).countable(),
        BlockSpec::EdgeResidual { out_channels, kernel, stride, expand } => {
            let mid = in_ch * expand;
            &&& mid <= usize::MAX
            &&& dense(in_ch, mid, kernel as int, stride as int).countable()
            &&& dense(mid, out_channels as int, 1, 1).countable()
        },
        BlockSpec::UniversalBottleneck { out_channels, start_kernel, mid_kernel, stride, expand } => {
            let mid = in_ch * expand;
            &&& mid <= usize::MAX
            &&& start_kernel > 0 ==> depthwise(in_ch, start_kernel as int, 1).countable()
            &&& dense(in_ch, mid, 1, 1).countable()
            &&& mid_kernel > 0 ==> depthwise(mid, mid_kernel as int, stride as int).countable()
            &&& dense(mid, out_channels as int, 1, 1).countable()
        },
        BlockSpec::Attention { out_channels, heads, kernel, stride, kv_dim, kv_stride } => {
            &&& kv_dim * heads <= usize::MAX
            &&& (kv_dim * heads) * in_ch <= usize::MAX
            &&& kv_dim * in_ch <= usize::MAX
            &&& out_channels * (kv_dim * heads) <= usize::MAX
            &&& kv_stride > 1 ==> kernel_countable(in_ch, 1, kernel as int)
        },
    }
}

/// The failure, after an earlier one, to load a convolution and its
/// normalisation.
pub open spec fn conv_bn_need(
    st: &Checkpoint,
    e: Option<Fault>,
    conv: Seq<char>,
    bn: Seq<char>,
    size: ConvSize,
) -> Option<Fault> {
    bn_need(
        st,
        st.need_len(e, conv + ".weight"@, size.len()),
        bn,
        size.c_out as int,
    )
}

/// Whether `w` is a convolution of the checkpoint with its normalisation.
pub open spec fn conv_bn_loaded(
    st: &Checkpoint,
    conv: Seq<char>,
    bn: Seq<char>,
    size: ConvSize,
    w: &Conv2dBnWeights,
) -> bool {
    &&& size.sizes(w)
    &&& w.w@ == st.data(conv + ".weight"@)
    &&& bn_loaded(st, bn, mv4_eps(), &w.bn)
}

/// Whether `w` is a pointwise projection of the checkpoint, whose normalisation
/// changes nothing.
pub open spec fn proj_loaded(
    st: &Checkpoint,
    prefix: Seq<char>,
    c_in: int,
    c_out: int,
    w: &Conv2dBnWeights,
) -> bool {
    &&& dense(c_in, c_out, 1, 1).sizes(w)
    &&& w.w@ == st.data(prefix + ".weight"@)
    &&& w.bn.w@ == filled(one(), c_out)
    &&& w.bn.b@ == filled(zero(), c_out)
}

/// The failure, after an earlier one, to load the optional scale of a block.
pub open spec fn gamma_need(st: &Checkpoint, e: Option<Fault>, p: Seq<char>, out: int) -> Option<Fault> {
    if st.lookup(p + ".layer_scale.gamma"@) is Some {
        st.need_len(e, p + ".layer_scale.gamma"@, out)
    } else {
        e
    }
}

/// Whether `g` is the scale of a block, absent where the checkpoint has none.
pub open spec fn gamma_loaded(st: &Checkpoint, p: Seq<char>, g: Option<Data>) -> bool {
    match st.lookup(p + ".layer_scale.gamma"@) {
        None => g is None,
        Some(d) => g matches Some(v) && v@ == d,
    }
}

/// Stride of the first depthwise convolution of a bottleneck: the second one,
/// where there is one, takes the stride of the block.
pub open spec fn start_stride(mid_kernel: usize, stride: usize) -> int {
    if mid_kernel > 0 {
        1
    } else {
        stride as int
    }
}

/// The failure, after an earlier one, to load the block `p`.
pub open spec fn block_need(
    st: &Checkpoint,
    e: Option<Fault>,
    p: Seq<char>,
    spec: BlockSpec,
    in_ch: int,
) -> Option<Fault> {
    match spec {
        BlockSpec::Convolutional { out_channels, kernel, stride } => conv_bn_need(
            st,
            e,
            p + ".conv"@,
            p + ".bn1"@,
            dense(in_ch, out_channels as int, kernel as int, stride as int),
        ),
        BlockSpec::EdgeResidual { out_channels, kernel, stride, expand } => {
            let mid = in_ch * expand;
            let e = conv_bn_need(
                st,
                e,
                p + ".conv_exp"@,
                p + ".bn1"@,
                dense(in_ch, mid, kernel as int, stride as int),
            );
            conv_bn_need(st, e, p + ".conv_pwl"@, p + ".bn2"@, dense(mid, out_channels as int, 1, 1))
        },
        BlockSpec::UniversalBottleneck { out_channels, start_kernel, mid_kernel, stride, expand } => {
            let mid = in_ch * expand;
            let e = if start_kernel > 0 {
                conv_bn_need(
                    st,
                    e,
                    p + ".dw_start.conv"@,
                    p + ".dw_start.bn"@,
                    depthwise(in_ch, start_kernel as int, start_stride(mid_kernel, stride)),
                )
            } else {
                e
            };
            let e = conv_bn_need(
                st,
                e,
                p + ".pw_exp.conv"@,
                p + ".pw_exp.bn"@,
                dense(in_ch, mid, 1, 1),
            );
            let e = if mid_kernel > 0 {
                conv_bn_need(
                    st,
                    e,
                    p + ".dw_mid.conv"@,
                    p + ".dw_mid.bn"@,
                    depthwise(mid, mid_kernel as int, stride as int),
                )
            } else {
                e
            };
            let e = conv_bn_need(
                st,
                e,
                p + ".pw_proj.conv"@,
                p + ".pw_proj.bn"@,
                dense(mid, out_channels as int, 1, 1),
            );
            gamma_need(st, e, p, out_channels as int)
        },
        BlockSpec::Attention { out_channels, heads, kernel, stride, kv_dim, kv_stride } => {
            let e = first(
                e,
                if stride != 1 {
                    Some(Fault::Model(Error::BlockStride))
                } else {
                    None
                },
            );
            let width = kv_dim * heads;
            let e = bn_need(st, e, p + ".norm"@, out_channels as int);
            let e = st.need_len(e, p + ".attn.query.proj"@ + ".weight"@, width * in_ch);
            let e = if kv_stride > 1 {
                let n = kernel_len(in_ch, 1, kernel as int);
                let e = st.need_len(e, p + ".attn.key.down_conv"@ + ".weight"@, n);
                let e = bn_need(st, e, p + ".attn.key.norm"@, in_ch);
                let e = st.need_len(e, p + ".attn.value.down_conv"@ + ".weight"@, n);
                bn_need(st, e, p + ".attn.value.norm"@, in_ch)
            } else {
                e
            };
            let e = st.need_len(e, p + ".attn.key.proj"@ + ".weight"@, kv_dim * in_ch);
            let e = st.need_len(e, p + ".attn.value.proj"@ + ".weight"@, kv_dim * in_ch);
            let e = st.need_len(e, p + ".attn.output.proj"@ + ".weight"@, out_channels * width);
            gamma_need(st, e, p, out_channels as int)
        },
    }
}

/// Whether an optional convolution is there exactly where it is asked for, and
/// is that of the checkpoint.
pub open spec fn conv_bn_loaded_if(
    asked: bool,
    st: &Checkpoint,
    conv: Seq<char>,
    bn: Seq<char>,
    size: ConvSize,
    w: Option<Conv2dBnWeights>,
) -> bool {
    match w {
        None => !asked,
        Some(c) => asked && conv_bn_loaded(st, conv, bn, size, &c),
    }
}

/// Whether `w` is the block `p` of the checkpoint.
pub open spec fn block_loaded(
    st: &Checkpoint,
    p: Seq<char>,
    spec: BlockSpec,
    in_ch: int,
    w: BlockWeights,
) -> bool {
    match spec {
        BlockSpec::Convolutional { out_channels, kernel, stride } => w matches
            BlockWeights::Convolutional(c) && conv_bn_loaded(
            st,
            p + ".conv"@,
            p + ".bn1"@,
            dense(in_ch, out_channels as int, kernel as int, stride as int),
            &c,
        ),
        BlockSpec::EdgeResidual { out_channels, kernel, stride, expand } => w matches
            BlockWeights::EdgeResidual(er) && {
            let mid = in_ch * expand;
            &&& conv_bn_loaded(
                st,
                p + ".conv_exp"@,
                p + ".bn1"@,
                dense(in_ch, mid, kernel as int, stride as int),
                &er.conv_exp,
            )
            &&& conv_bn_loaded(
                st,
                p + ".conv_pwl"@,
                p + ".bn2"@,
                dense(mid, out_channels as int, 1, 1),
                &er.conv_pwl,
            )
        },
        BlockSpec::UniversalBottleneck { out_channels, start_kernel, mid_kernel, stride, expand } => w
            matches BlockWeights::UniversalBottleneck(u) && {
            let mid = in_ch * expand;
            &&& conv_bn_loaded_if(
                start_kernel > 0,
                st,
                p + ".dw_start.conv"@,
                p + ".dw_start.bn"@,
                depthwise(in_ch, start_kernel as int, start_stride(mid_kernel, stride)),
                u.dw_start,
            )
            &&& conv_bn_loaded(
                st,
                p + ".pw_exp.conv"@,
                p + ".pw_exp.bn"@,
                dense(in_ch, mid, 1, 1),
                &u.pw_exp,
            )
            &&& conv_bn_loaded_if(
                mid_kernel > 0,
                st,
                p + ".dw_mid.conv"@,
                p + ".dw_mid.bn"@,
                depthwise(mid, mid_kernel as int, stride as int),
                u.dw_mid,
            )
            &&& conv_bn_loaded(
                st,
                p + ".pw_proj.conv"@,
                p + ".pw_proj.bn"@,
                dense(mid, out_channels as int, 1, 1),
                &u.pw_proj,
            )
            &&& gamma_loaded(st, p, u.layer_scale_gamma)
            &&& u.skip == (in_ch == out_channels && stride == 1)
        },
        BlockSpec::Attention { out_channels, heads, kernel, stride, kv_dim, kv_stride } => w matches
            BlockWeights::Attention(m) && {
            let width = kv_dim * heads;
            let down = depthwise(in_ch, kernel as int, kv_stride as int);
            &&& bn_loaded(st, p + ".norm"@, mv4_eps(), &m.input_norm)
            &&& proj_loaded(st, p + ".attn.query.proj"@, in_ch, width, &m.query_proj)
            &&& conv_bn_loaded_if(
                kv_stride > 1,
                st,
                p + ".attn.key.down_conv"@,
                p + ".attn.key.norm"@,
                down,
                m.key_down,
            )
            &&& conv_bn_loaded_if(
                kv_stride > 1,
                st,
                p + ".attn.value.down_conv"@,
                p + ".attn.value.norm"@,
                down,
                m.value_down,
            )
            &&& proj_loaded(st, p + ".attn.key.proj"@, in_ch, kv_dim as int, &m.key_proj)
            &&& proj_loaded(st, p + ".attn.value.proj"@, in_ch, kv_dim as int, &m.value_proj)
            &&& proj_loaded(
                st,
                p + ".attn.output.proj"@,
                width,
                out_channels as int,
                &m.output_proj,
            )
            &&& m.heads == heads
            &&& m.kv_dim == kv_dim
            &&& gamma_loaded(st, p, m.layer_scale_gamma)
            &&& m.skip == (in_ch == out_channels)
        },
    }
}

/// Name prefix of block `b` of stage `s`.
pub open spec fn block_prefix(s: int, b: int) -> Seq<char> {
    "blocks."@ + decimal(s) + "."@ + decimal(b)
}

/// The failure, after an earlier one, to load the first `n` blocks of stage `s`.
pub open spec fn stage_need(
    st: &Checkpoint,
    cfg: &Mv4Config,
    e: Option<Fault>,
    s: int,
    n: int,
) -> Option<Fault>
    decreases n,
{
    if n <= 0 {
        e
    } else {
        block_need(
            st,
            stage_need(st, cfg, e, s, n - 1),
            block_prefix(s, n - 1),
            cfg.stage(s)[n - 1],
            cfg.block_in(s, n - 1),
        )
    }
}

/// The failure, after an earlier one, to load the first `s` stages.
pub open spec fn stages_need(st: &Checkpoint, cfg: &Mv4Config, e: Option<Fault>, s: int) -> Option<Fault>
    decreases s,
{
    if s <= 0 {
        e
    } else {
        stage_need(
            st,
            cfg,
            stages_need(st, cfg, e, s - 1),
            s - 1,
            cfg.stage(s - 1).len() as int,
        )
    }
}

/// Sizes of the stem.
pub open spec fn stem_size(cfg: &Mv4Config) -> ConvSize {
    dense(3, cfg.stem_dim as int, 3, 2)
}

impl Mv4Weights {
    /// Why a checkpoint cannot be loaded.
    pub open spec fn load_failure(st: &Checkpoint, cfg: &Mv4Config, with_head: Option<usize>) -> Option<Fault> {
        let e = conv_bn_need(st, None, "conv_stem"@, "bn1"@, stem_size(cfg));
        let e = stages_need(st, cfg, e, 5);
        let out = cfg.head_out_channels as int;
        match with_head {
            None => e,
            Some(n) => {
                let e = st.need_len(e, "conv_head.weight"@, out * cfg.head_in_channels);
                let e = bn_need(st, e, "norm_head"@, out);
                let e = st.need_len(e, "classifier.weight"@, n * out);
                st.need_len(e, "classifier.bias"@, n as int)
            },
        }
    }

    /// Whether these are the weights of the checkpoint.
    pub open spec fn loaded(&self, st: &Checkpoint, cfg: &Mv4Config, with_head: Option<usize>) -> bool {
        let out = cfg.head_out_channels as int;
        &&& conv_bn_loaded(st, "conv_stem"@, "bn1"@, stem_size(cfg), &self.stem)
        &&& self.blocks@.len() == cfg.blocks_before(5)
        &&& forall|s: int, b: int|
            0 <= s < 5 && 0 <= b < cfg.stage(s).len() ==> block_loaded(
                st,
                block_prefix(s, b),
                #[trigger] cfg.stage(s)[b],
                cfg.block_in(s, b),
                self.blocks@[cfg.blocks_before(s) + b],
            )
        &&& match with_head {
            None => self.head is None,
            Some(n) => self.head matches Some(h) && {
                &&& dense(cfg.head_in_channels as int, out, 1, 1).sizes(&h.conv)
                &&& h.conv.w@ == st.data("conv_head.weight"@)
                &&& bn_loaded(st, "norm_head"@, mv4_eps(), &h.conv.bn)
                &&& h.linear_w@ == loaded_matrix(st, "classifier.weight"@, n as int, out)
                &&& h.linear_b@ == st.data("classifier.bias"@)
            },
        }
    }
}

fn mv4_load_check(ld: &mut Loader, name: &str, expected_len: usize) -> (r: Data)
    ensures
        final(ld).st == old(ld).st,
        final(ld).fault() == old(ld).st.need_len(old(ld).fault(), name@, expected_len as int),
        r@ == old(ld).st.data(name@),
{
    ld.take_len(name, expected_len)
}

/// Reads and folds a normalisation over `channels` channels.
pub fn mv4_load_bn(ld: &mut Loader, prefix: &str, channels: usize) -> (r: BatchNormParams)
    ensures
        final(ld).st == old(ld).st,
        final(ld).fault() == bn_need(old(ld).st, old(ld).fault(), prefix@, channels as int),
        final(ld).fault() is None ==> bn_loaded(old(ld).st, prefix@, mv4_eps(), &r),
{
    load_batch_norm(ld, prefix, channels, &Scalar::F64(0x3EE4_F8B5_88E3_68F1))
}

fn mv4_load_conv_bn(ld: &mut Loader, conv_prefix: &str, bn_prefix: &str, size: ConvSize) -> (r:
    Conv2dBnWeights)
    requires
        size.countable(),
    ensures
        final(ld).st == old(ld).st,
        final(ld).fault() == conv_bn_need(
            old(ld).st,
            old(ld).fault(),
            conv_prefix@,
            bn_prefix@,
            size,
        ),
        size.sizes(&r),
        final(ld).fault() is None ==> conv_bn_loaded(old(ld).st, conv_prefix@, bn_prefix@, size, &r),
{
    let n: usize = size.c_out * (size.c_in / size.groups) * size.k * size.k;
    let w = mv4_load_check(ld, join(conv_prefix, ".weight").as_str(), n);
    let bn = mv4_load_bn(ld, bn_prefix, size.c_out);
    Conv2dBnWeights {
        w,
        bn,
        c_in: size.c_in,
        c_out: size.c_out,
        k: size.k,
        stride: size.stride,
        pad: size.pad,
        groups: size.groups,
    }
}

/// A projection without normalisation carries one that changes nothing.
fn mv4_load_proj(ld: &mut Loader, prefix: &str, c_in: usize, c_out: usize) -> (r: Conv2dBnWeights)
    requires
        c_out * c_in <= usize::MAX,
    ensures
        final(ld).st == old(ld).st,
        final(ld).fault() == old(ld).st.need_len(old(ld).fault(), prefix@ + ".weight"@, c_out * c_in),
        proj_loaded(old(ld).st, prefix@, c_in as int, c_out as int, &r),
{
    let w = mv4_load_check(ld, join(prefix, ".weight").as_str(), c_out * c_in);
    let bn = BatchNormParams {
        w: Arc::new(fill(&Scalar::F32(0x3F80_0000), c_out)),
        b: Arc::new(fill(&Scalar::F32(0), c_out)),
    };
    Conv2dBnWeights { w, bn, c_in, c_out, k: 1, stride: 1, pad: 0, groups: 1 }
}

fn mv4_load_dw(
    ld: &mut Loader,
    conv_prefix: &str,
    bn_prefix: &str,
    channels: usize,
    kernel: usize,
    stride: usize,
) -> (r: Conv2dBnWeights)
    requires
        kernel_countable(channels as int, 1, kernel as int),
    ensures
        final(ld).st == old(ld).st,
        final(ld).fault() == bn_need(
            old(ld).st,
            old(ld).st.need_len(
                old(ld).fault(),
                conv_prefix@ + ".weight"@,
                kernel_len(channels as int, 1, kernel as int),
            ),
            bn_prefix@,
            channels as int,
        ),
        final(ld).fault() is None ==> conv_bn_loaded(
            old(ld).st,
            conv_prefix@,
            bn_prefix@,
            depthwise(channels as int, kernel as int, stride as int),
            &r,
        ),
{
    let w = mv4_load_check(ld, join(conv_prefix, ".weight").as_str(), channels * kernel * kernel);
    let bn = mv4_load_bn(ld, bn_prefix, channels);
    Conv2dBnWeights {
        w,
        bn,
        c_in: channels,
        c_out: channels,
        k: kernel,
        stride,
        pad: kernel / 2,
        groups: channels,
    }
}

fn mv4_load_gamma(ld: &mut Loader, prefix: &str, out: usize) -> (r: Option<Data>)
    ensures
        final(ld).st == old(ld).st,
        final(ld).fault() == gamma_need(old(ld).st, old(ld).fault(), prefix@, out as int),
        gamma_loaded(old(ld).st, prefix@, r),
{
    let name = join(prefix, ".layer_scale.gamma");
    if ld.st.contains(name.as_str()) {
        Some(mv4_load_check(ld, name.as_str(), out))
    } else {
        None
    }
}

fn mv4_load_uib(
    ld: &mut Loader,
    prefix: &str,
    in_ch: usize,
    out_channels: usize,
    start_kernel: usize,
    mid_kernel: usize,
    stride: usize,
    expand: usize,
) -> (r: UibWeights)
    requires
        block_countable(
            bottleneck(out_channels, start_kernel, mid_kernel, stride, expand),
            in_ch as int,
        ),
    ensures
        final(ld).st == old(ld).st,
        final(ld).fault() == block_need(
            old(ld).st,
            old(ld).fault(),
            prefix@,
            bottleneck(out_channels, start_kernel, mid_kernel, stride, expand),
            in_ch as int,
        ),
        final(ld).fault() is None ==> block_loaded(
            old(ld).st,
            prefix@,
            bottleneck(out_channels, start_kernel, mid_kernel, stride, expand),
            in_ch as int,
            BlockWeights::UniversalBottleneck(r),
        ),
{
    let mid: usize = in_ch * expand;
    let dw_start_stride: usize = if mid_kernel > 0 { 1 } else { stride };
    let dw_start = if start_kernel > 0 {
        Some(
            mv4_load_conv_bn(
                ld,
                join(prefix, ".dw_start.conv").as_str(),
                join(prefix, ".dw_start.bn").as_str(),
                depthwise_size(in_ch, start_kernel, dw_start_stride),
            ),
        )
    } else {
        None
    };
    let pw_exp = mv4_load_conv_bn(
        ld,
        join(prefix, ".pw_exp.conv").as_str(),
        join(prefix, ".pw_exp.bn").as_str(),
        dense_size(in_ch, mid, 1, 1),
    );
    let dw_mid = if mid_kernel > 0 {
        Some(
            mv4_load_conv_bn(
                ld,
                join(prefix, ".dw_mid.conv").as_str(),
                join(prefix, ".dw_mid.bn").as_str(),
                depthwise_size(mid, mid_kernel, stride),
            ),
        )
    } else {
        None
    };
    let pw_proj = mv4_load_conv_bn(
        ld,
        join(prefix, ".pw_proj.conv").as_str(),
        join(prefix, ".pw_proj.bn").as_str(),
        dense_size(mid, out_channels, 1, 1),
    );
    let layer_scale_gamma = mv4_load_gamma(ld, prefix, out_channels);
    UibWeights {
        dw_start,
        pw_exp,
        dw_mid,
        pw_proj,
        layer_scale_gamma,
        skip: in_ch == out_channels && stride == 1,
    }
}

fn mv4_load_attention(
    ld: &mut Loader,
    prefix: &str,
    in_ch: usize,
    out_channels: usize,
    heads: usize,
    kernel: usize,
    stride: usize,
    kv_dim: usize,
    kv_stride: usize,
) -> (r: MqaWeights)
    requires
        block_countable(
            (BlockSpec::Attention { out_channels, heads, kernel, stride, kv_dim, kv_stride }),
            in_ch as int,
        ),
    ensures
        final(ld).st == old(ld).st,
        final(ld).fault() == block_need(
            old(ld).st,
            old(ld).fault(),
            prefix@,
            (BlockSpec::Attention { out_channels, heads, kernel, stride, kv_dim, kv_stride }),
            in_ch as int,
        ),
        final(ld).fault() is None ==> block_loaded(
            old(ld).st,
            prefix@,
            (BlockSpec::Attention { out_channels, heads, kernel, stride, kv_dim, kv_stride }),
            in_ch as int,
            BlockWeights::Attention(r),
        ),
{
    if stride != 1 {
        ld.fail(LoadError::Model(Error::BlockStride));
    }
    let width: usize = kv_dim * heads;
    let input_norm = mv4_load_bn(ld, join(prefix, ".norm").as_str(), out_channels);
    let query_proj = mv4_load_proj(ld, join(prefix, ".attn.query.proj").as_str(), in_ch, width);
    let (key_down, value_down) = if kv_stride > 1 {
        let kd = mv4_load_dw(
            ld,
            join(prefix, ".attn.key.down_conv").as_str(),
            join(prefix, ".attn.key.norm").as_str(),
            in_ch,
            kernel,
            kv_stride,
        );
        let vd = mv4_load_dw(
            ld,
            join(prefix, ".attn.value.down_conv").as_str(),
            join(prefix, ".attn.value.norm").as_str(),
            in_ch,
            kernel,
            kv_stride,
        );
        (Some(kd), Some(vd))
    } else {
        (None, None)
    };
    let key_proj = mv4_load_proj(ld, join(prefix, ".attn.key.proj").as_str(), in_ch, kv_dim);
    let value_proj = mv4_load_proj(ld, join(prefix, ".attn.value.proj").as_str(), in_ch, kv_dim);
    let output_proj = mv4_load_proj(
        ld,
        join(prefix, ".attn.output.proj").as_str(),
        width,
        out_channels,
    );
    let layer_scale_gamma = mv4_load_gamma(ld, prefix, out_channels);
    MqaWeights {
        input_norm,
        query_proj,
        key_down,
        key_proj,
        value_down,
        value_proj,
        output_proj,
        heads,
        kv_dim,
        layer_scale_gamma,
        skip: in_ch == out_channels,
    }
}

/// Loads one block and says how many channels it yields.
fn mv4_load_block(ld: &mut Loader, prefix: &str, spec: &BlockSpec, in_ch: usize) -> (r: (
    BlockWeights,
    usize,
))
    requires
        block_countable(*spec, in_ch as int),
    ensures
        final(ld).st == old(ld).st,
        final(ld).fault() == block_need(old(ld).st, old(ld).fault(), prefix@, *spec, in_ch as int),
        final(ld).fault() is None ==> block_loaded(old(ld).st, prefix@, *spec, in_ch as int, r.0),
        r.1 == block_out(*spec),
{
    match *spec {
        BlockSpec::Convolutional { out_channels, kernel, stride } => {
            let conv = mv4_load_conv_bn(
                ld,
                join(prefix, ".conv").as_str(),
                join(prefix, ".bn1").as_str(),
                dense_size(in_ch, out_channels, kernel, stride),
            );
            (BlockWeights::Convolutional(conv), out_channels)
        },
        BlockSpec::EdgeResidual { out_channels, kernel, stride, expand } => {
            let mid: usize = in_ch * expand;
            let conv_exp = mv4_load_conv_bn(
                ld,
                join(prefix, ".conv_exp").as_str(),
                join(prefix, ".bn1").as_str(),
                dense_size(in_ch, mid, kernel, stride),
            );
            let conv_pwl = mv4_load_conv_bn(
                ld,
                join(prefix, ".conv_pwl").as_str(),
                join(prefix, ".bn2").as_str(),
                dense_size(mid, out_channels, 1, 1),
            );
            (BlockWeights::EdgeResidual(EdgeResidualWeights { conv_exp, conv_pwl }), out_channels)
        },
        BlockSpec::UniversalBottleneck { out_channels, start_kernel, mid_kernel, stride, expand } => {
            let u = mv4_load_uib(
                ld,
                prefix,
                in_ch,
                out_channels,
                start_kernel,
                mid_kernel,
                stride,
                expand,
            );
            (BlockWeights::UniversalBottleneck(u), out_channels)
        },
        BlockSpec::Attention { out_channels, heads, kernel, stride, kv_dim, kv_stride } => {
            let m = mv4_load_attention(
                ld,
                prefix,
                in_ch,
                out_channels,
                heads,
                kernel,
                stride,
                kv_dim,
                kv_stride,
            );
            (BlockWeights::Attention(m), out_channels)
        },
    }
}

/// A failure after loading the first blocks of a stage is a failure later on.
proof fn stage_need_keeps(st: &Checkpoint, cfg: &Mv4Config, e: Option<Fault>, s: int, n: int)
    ensures
        stage_need(st, cfg, e, s, n) is None ==> e is None,
    decreases n,
{
    if n > 0 {
        stage_need_keeps(st, cfg, e, s, n - 1);
        let f = stage_need(st, cfg, e, s, n - 1);
        block_need_keeps(st, f, block_prefix(s, n - 1), cfg.stage(s)[n - 1], cfg.block_in(s, n - 1));
    }
}

proof fn block_need_keeps(st: &Checkpoint, e: Option<Fault>, p: Seq<char>, spec: BlockSpec, in_ch: int)
    ensures
        block_need(st, e, p, spec, in_ch) is None ==> e is None,
{
}

/// The blocks from `base` on are the first `n` of stage `s`.
#[verifier::opaque]
pub open spec fn stage_loaded(
    st: &Checkpoint,
    cfg: &Mv4Config,
    s: int,
    n: int,
    blocks: Seq<BlockWeights>,
    base: int,
) -> bool {
    forall|b: int|
        0 <= b < n ==> block_loaded(
            st,
            block_prefix(s, b),
            #[trigger] cfg.stage(s)[b],
            cfg.block_in(s, b),
            blocks[base + b],
        )
}

/// One more block of a stage.
proof fn stage_grows(
    st: &Checkpoint,
    cfg: &Mv4Config,
    s: int,
    n: int,
    blocks: Seq<BlockWeights>,
    base: int,
    next: BlockWeights,
)
    requires
        stage_loaded(st, cfg, s, n, blocks, base),
        0 <= base,
        0 <= n,
        blocks.len() == base + n,
        block_loaded(st, block_prefix(s, n), cfg.stage(s)[n], cfg.block_in(s, n), next),
    ensures
        stage_loaded(st, cfg, s, n + 1, blocks.push(next), base),
{
    reveal(stage_loaded);
}

impl Mv4Weights {
    fn load_next(ld: &mut Loader, cfg: &Mv4Config, s: usize, b: usize, in_ch: usize) -> (r: (
        BlockWeights,
        usize,
    ))
        requires
            s < 5,
            b < cfg.stage(s as int).len(),
            cfg.loadable(None),
            in_ch == cfg.block_in(s as int, b as int),
        ensures
            final(ld).st == old(ld).st,
            final(ld).fault() == block_need(
                old(ld).st,
                old(ld).fault(),
                block_prefix(s as int, b as int),
                cfg.stage(s as int)[b as int],
                in_ch as int,
            ),
            final(ld).fault() is None ==> {
                &&& old(ld).fault() is None
                &&& block_loaded(
                    old(ld).st,
                    block_prefix(s as int, b as int),
                    cfg.stage(s as int)[b as int],
                    in_ch as int,
                    r.0,
                )
            },
            r.1 == cfg.block_in(s as int, b + 1),
    {
        let prefix = numbered(join(numbered("blocks.", s).as_str(), ".").as_str(), b);
        let spec = &cfg.stages[s][b];
        assert(block_countable(cfg.stage(s as int)[b as int], in_ch as int));
        proof {
            block_need_keeps(ld.st, ld.fault(), prefix@, *spec, in_ch as int);
        }
        mv4_load_block(ld, prefix.as_str(), spec, in_ch)
    }

    #[verifier::spinoff_prover]
    fn load_stage(ld: &mut Loader, cfg: &Mv4Config, s: usize, in_ch: usize, blocks: &mut Vec<BlockWeights>) -> (r:
        usize)
        requires
            s < 5,
            cfg.loadable(None),
            in_ch == cfg.stage_in(s as int),
        ensures
            final(ld).st == old(ld).st,
            final(ld).fault() == stage_need(
                old(ld).st,
                cfg,
                old(ld).fault(),
                s as int,
                cfg.stage(s as int).len() as int,
            ),
            r == cfg.stage_in(s + 1),
            final(blocks)@.len() == old(blocks)@.len() + cfg.stage(s as int).len(),
            forall|i: int|
                0 <= i < old(blocks)@.len() ==> #[trigger] final(blocks)@[i] == old(blocks)@[i],
            final(ld).fault() is None ==> stage_loaded(
                old(ld).st,
                cfg,
                s as int,
                cfg.stage(s as int).len() as int,
                final(blocks)@,
                old(blocks)@.len() as int,
            ),
    {
        let ghost st = ld.st;
        let ghost e = ld.fault();
        let ghost before = blocks@;
        let ghost sp = cfg.stage(s as int);
        let stage = &cfg.stages[s];
        let mut cur: usize = in_ch;
        let mut b: usize = 0;
        assert(stage_loaded(st, cfg, s as int, 0, blocks@, before.len() as int)) by {
            reveal(stage_loaded);
        }
        while b < stage.len()
            invariant
                s < 5,
                cfg.loadable(None),
                stage@ == sp,
                sp == cfg.stage(s as int),
                b <= sp.len(),
                ld.st == st,
                ld.fault() == stage_need(st, cfg, e, s as int, b as int),
                cur == cfg.block_in(s as int, b as int),
                blocks@.len() == before.len() + b,
                forall|i: int| 0 <= i < before.len() ==> #[trigger] blocks@[i] == before[i],
                ld.fault() is None ==> stage_loaded(
                    st,
                    cfg,
                    s as int,
                    b as int,
                    blocks@,
                    before.len() as int,
                ),
            decreases sp.len() - b,
        {
            let (bw, next_in) = Mv4Weights::load_next(ld, cfg, s, b, cur);
            proof {
                if ld.fault() is None {
                    stage_grows(st, cfg, s as int, b as int, blocks@, before.len() as int, bw);
                }
            }
            blocks.push(bw);
            cur = next_in;
            b = b + 1;
        }
        cur
    }

    /// Loads the weights of a checkpoint.
    ///
    /// - Stem: `conv_stem.weight`, `bn1.*`.
    /// - Blocks under `blocks.{stage}.{block}`: convolutional ones have
    ///   `conv.weight` and `bn1.*`; edge-residual ones `conv_exp.weight`,
    ///   `bn1.*`, `conv_pwl.weight`, `bn2.*`; bottlenecks `dw_start`, `pw_exp`,
    ///   `dw_mid` and `pw_proj`, each with `conv.weight` and `bn.*`, and
    ///   optionally `layer_scale.gamma`; attention ones `norm.*`, and under
    ///   `attn` the projections of query, key, value and output and the
    ///   downsampling of key and value, and optionally `layer_scale.gamma`.
    /// - Head, where asked for: `conv_head.weight`, `norm_head.*`,
    ///   `classifier.weight` stored as `(classes, head_out_channels)`, and
    ///   `classifier.bias`.
    pub fn load_from_mmapped(st: &Checkpoint, cfg: &Mv4Config, with_head: Option<usize>) -> (r: Result<Self, LoadError>)
        requires
            cfg.loadable(with_head),
        ensures
            match r {
                Ok(w) => Mv4Weights::load_failure(st, cfg, with_head) is None && w.loaded(
                    st,
                    cfg,
                    with_head,
                ),
                Err(e) => Mv4Weights::load_failure(st, cfg, with_head) == Some(e@),
            },
    {
        let mut ld = Loader::new(st);
        assert(cfg.stem_dim * 3 * 3 * 3 == cfg.stem_dim * 27) by (nonlinear_arith);
        let stem = mv4_load_conv_bn(&mut ld, "conv_stem", "bn1", dense_size(3, cfg.stem_dim, 3, 2));
        let ghost e0 = ld.fault();
        let mut blocks: Vec<BlockWeights> = Vec::new();
        let mut in_ch: usize = cfg.stem_dim;
        let mut s: usize = 0;
        while s < 5
            invariant
                s <= 5,
                cfg.loadable(with_head),
                ld.st == st,
                ld.fault() == stages_need(st, cfg, e0, s as int),
                ld.fault() is None ==> e0 is None,
                in_ch == cfg.stage_in(s as int),
                blocks@.len() == cfg.blocks_before(s as int),
                ld.fault() is None ==> forall|t: int, b: int|
                    0 <= t < s && 0 <= b < cfg.stage(t).len() ==> block_loaded(
                        st,
                        block_prefix(t, b),
                        #[trigger] cfg.stage(t)[b],
                        cfg.block_in(t, b),
                        blocks@[cfg.blocks_before(t) + b],
                    ),
                e0 == conv_bn_need(st, None, "conv_stem"@, "bn1"@, stem_size(cfg)),
                e0 is None ==> conv_bn_loaded(st, "conv_stem"@, "bn1"@, stem_size(cfg), &stem),
            decreases 5 - s,
        {
            let ghost old_blocks = blocks@;
            let ghost f = ld.fault();
            proof {
                stage_need_keeps(st, cfg, f, s as int, cfg.stage(s as int).len() as int);
            }
            in_ch = Mv4Weights::load_stage(&mut ld, cfg, s, in_ch, &mut blocks);
            assert forall|t: int, b: int|
                ld.fault() is None && 0 <= t < s + 1 && 0 <= b < cfg.stage(t).len() implies block_loaded(
                st,
                block_prefix(t, b),
                #[trigger] cfg.stage(t)[b],
                cfg.block_in(t, b),
                blocks@[cfg.blocks_before(t) + b],
            ) by {
                reveal(stage_loaded);
                if t < s {
                    blocks_before_fits(cfg, t, s as int);
                    assert(blocks@[cfg.blocks_before(t) + b] == old_blocks[cfg.blocks_before(t) + b]);
                }
            }
            s = s + 1;
        }
        let head = match with_head {
            None => None,
            Some(nclasses) => {
                let out: usize = cfg.head_out_channels;
                let conv_w = mv4_load_check(&mut ld, "conv_head.weight", out * cfg.head_in_channels);
                let bn = mv4_load_bn(&mut ld, "norm_head", out);
                let conv = Conv2dBnWeights {
                    w: conv_w,
                    bn,
                    c_in: cfg.head_in_channels,
                    c_out: out,
                    k: 1,
                    stride: 1,
                    pad: 0,
                    groups: 1,
                };
                let linear_w = ld.take_matrix("classifier.weight", nclasses, out);
                let linear_b = mv4_load_check(&mut ld, "classifier.bias", nclasses);
                Some(Mv4HeadWeights { conv, linear_w: WeightStorage::F32(linear_w), linear_b })
            },
        };
        match ld.error {
            Some(e) => Err(e),
            None => Ok(Mv4Weights { stem, blocks, head }),
        }
    }
}

/// The blocks of an earlier stage come before those of a later one.
proof fn blocks_before_fits(cfg: &Mv4Config, t: int, s: int)
    requires
        0 <= t < s,
    ensures
        0 <= cfg.blocks_before(t),
        cfg.blocks_before(t) + cfg.stage(t).len() <= cfg.blocks_before(s),
    decreases s,
{
    if t < s - 1 {
        blocks_before_fits(cfg, t, s - 1);
    } else {
        blocks_before_nonneg(cfg, t);
    }
}

proof fn blocks_before_nonneg(cfg: &Mv4Config, t: int)
    ensures
        cfg.blocks_before(t) >= 0,
    decreases t,
{
    if t > 0 {
        blocks_before_nonneg(cfg, t - 1);
    }
}

impl Conv2dBnWeights {
    /// An odd kernel, padded by half of it, whose weights have the sizes that it
    /// declares and which reads `c` channels.
    pub open spec fn reads(&self, c: int) -> bool {
        let per = self.c_in as int / self.groups as int;
        let k = self.k as int;
        &&& self.c_in == c
        &&& c >= 1
        &&& k % 2 == 1
        &&& self.pad == k / 2
        &&& self.stride >= 1
        &&& self.groups >= 1
        &&& self.c_out >= 1
        &&& per * self.groups == self.c_in
        &&& self.c_out % self.groups == 0
        &&& self.c_out * per * k * k <= usize::MAX
        &&& self.w@.len() == self.c_out * per * k * k
        &&& self.bn.w@.len() == self.c_out
        &&& self.bn.b@.len() == self.c_out
    }

    /// Sides up to `n` can be padded.
    pub open spec fn covers(&self, n: int) -> bool {
        n + self.k <= usize::MAX
    }
}

/// On weights of the declared sizes a convolution succeeds: it yields its
/// channels at every `stride`-th position.
pub proof fn conv_succeeds(w: &Conv2dBnWeights, x: Tensor, b: int, c: int, h: int, wd: int)
    requires
        w.reads(c),
        w.covers(h),
        w.covers(wd),
        h >= 1,
        wd >= 1,
        has(x, seq![b, c, h, wd]),
    ensures
        has(
            w.value(x),
            seq![b, w.c_out as int, shrunk(h, w.stride as int), shrunk(wd, w.stride as int)],
        ),
        1 <= shrunk(h, w.stride as int) <= h,
        1 <= shrunk(wd, w.stride as int) <= wd,
        w.stride == 1 ==> shrunk(h, w.stride as int) == h && shrunk(wd, w.stride as int) == wd,
{
    let per = w.c_in as int / w.groups as int;
    let k = w.k as int;
    let o = w.c_out as int;
    let st = w.stride as int;
    assert(per >= 1) by (nonlinear_arith)
        requires
            per * w.groups == w.c_in,
            w.c_in >= 1,
            w.groups >= 1,
    ;
    products(o, per, k, k, 1, 1);
    constant_has(w.w@, seq![o, per, k, k]);
    let kernel = Tensor::constant(w.w@, seq![o, per, k, k]);
    odd_windows(h, k, st);
    odd_windows(wd, k, st);
    conv2d_has(x, kernel, st, k / 2, w.groups as int);
    channel_affine_keeps(x.conv2d(kernel, st, k / 2, w.groups as int), w.bn.w@, w.bn.b@);
}

/// Channels after an optional convolution.
pub open spec fn out_opt(c: Option<Conv2dBnWeights>, n: int) -> int {
    match c {
        None => n,
        Some(w) => w.c_out as int,
    }
}

/// Positions along a side after an optional convolution.
pub open spec fn side_opt(c: Option<Conv2dBnWeights>, n: int) -> int {
    match c {
        None => n,
        Some(w) => shrunk(n, w.stride as int),
    }
}

/// An optional convolution reads `n` channels.
pub open spec fn reads_opt(c: Option<Conv2dBnWeights>, n: int) -> bool {
    c matches Some(w) ==> w.reads(n)
}

pub open spec fn covers_opt(c: Option<Conv2dBnWeights>, n: int) -> bool {
    c matches Some(w) ==> w.covers(n)
}

pub proof fn maybe_has(w: Option<Conv2dBnWeights>, x: Tensor, b: int, c: int, h: int, wd: int)
    requires
        reads_opt(w, c),
        covers_opt(w, h),
        covers_opt(w, wd),
        h >= 1,
        wd >= 1,
        has(x, seq![b, c, h, wd]),
    ensures
        has(
            Conv2dBnWeights::maybe(w, x),
            seq![b, out_opt(w, c), side_opt(w, h), side_opt(w, wd)],
        ),
        1 <= side_opt(w, h) <= h,
        1 <= side_opt(w, wd) <= wd,
{
    if let Some(v) = w {
        conv_succeeds(&v, x, b, c, h, wd);
    }
}

/// A scale has one number for each of `c` channels.
pub open spec fn scale_sized(gamma: Option<Data>, c: int) -> bool {
    gamma matches Some(g) ==> g@.len() == c
}

pub proof fn scaled_skip_has(y: Tensor, gamma: Option<Data>, skip: bool, x: Tensor, b: int, c: int, h: int, w: int)
    requires
        has(y, seq![b, c, h, w]),
        1 <= c <= usize::MAX,
        scale_sized(gamma, c),
        skip ==> has(x, seq![b, c, h, w]),
    ensures
        has(scaled_skip(y, gamma, skip, x), seq![b, c, h, w]),
{
    broadcast use extents;

    if let Some(g) = gamma {
        per_channel_has(g@, y);
        broadcast_mul_under(y, Tensor::per_channel(g@));
    }
}

impl UibWeights {
    /// The parts fit together and read `c` channels; the input is added only
    /// where neither channels nor positions change.
    pub open spec fn reads(&self, c: int) -> bool {
        let mid = self.pw_exp.c_out as int;
        &&& reads_opt(self.dw_start, c)
        &&& self.pw_exp.reads(out_opt(self.dw_start, c))
        &&& reads_opt(self.dw_mid, mid)
        &&& self.pw_proj.reads(out_opt(self.dw_mid, mid))
        &&& scale_sized(self.layer_scale_gamma, self.pw_proj.c_out as int)
        &&& self.skip ==> {
            &&& self.pw_proj.c_out == c
            &&& self.dw_start matches Some(w) ==> w.stride == 1
            &&& self.pw_exp.stride == 1
            &&& self.dw_mid matches Some(w) ==> w.stride == 1
            &&& self.pw_proj.stride == 1
        }
    }

    pub open spec fn covers(&self, n: int) -> bool {
        &&& covers_opt(self.dw_start, n)
        &&& self.pw_exp.covers(n)
        &&& covers_opt(self.dw_mid, n)
        &&& self.pw_proj.covers(n)
    }

    pub open spec fn side(&self, n: int) -> int {
        shrunk(
            side_opt(self.dw_mid, shrunk(side_opt(self.dw_start, n), self.pw_exp.stride as int)),
            self.pw_proj.stride as int,
        )
    }
}

pub proof fn uib_has(u: &UibWeights, x: Tensor, act: Mv4Activation, b: int, c: int, h: int, w: int)
    requires
        u.reads(c),
        u.covers(h),
        u.covers(w),
        h >= 1,
        w >= 1,
        has(x, seq![b, c, h, w]),
    ensures
        has(u.value(x, act), seq![b, u.pw_proj.c_out as int, u.side(h), u.side(w)]),
        1 <= u.side(h) <= h,
        1 <= u.side(w) <= w,
{
    broadcast use extents;

    let c1 = out_opt(u.dw_start, c);
    let (h1, w1) = (side_opt(u.dw_start, h), side_opt(u.dw_start, w));
    maybe_has(u.dw_start, x, b, c, h, w);
    let y1 = Conv2dBnWeights::maybe(u.dw_start, x);
    conv_succeeds(&u.pw_exp, y1, b, c1, h1, w1);
    let mid = u.pw_exp.c_out as int;
    let (h2, w2) = (shrunk(h1, u.pw_exp.stride as int), shrunk(w1, u.pw_exp.stride as int));
    let a = activated(u.pw_exp.value(y1), act);
    assert(has(a, seq![b, mid, h2, w2]));
    maybe_has(u.dw_mid, a, b, mid, h2, w2);
    let y2 = match u.dw_mid {
        None => a,
        Some(v) => activated(v.value(a), act),
    };
    let c3 = out_opt(u.dw_mid, mid);
    let (h3, w3) = (side_opt(u.dw_mid, h2), side_opt(u.dw_mid, w2));
    assert(has(y2, seq![b, c3, h3, w3]));
    conv_succeeds(&u.pw_proj, y2, b, c3, h3, w3);
    scaled_skip_has(
        u.pw_proj.value(y2),
        u.layer_scale_gamma,
        u.skip,
        x,
        b,
        u.pw_proj.c_out as int,
        u.side(h),
        u.side(w),
    );
}

impl MqaWeights {
    /// The parts fit together and read `c` channels.
    pub open spec fn reads(&self, c: int) -> bool {
        let q = self.kv_dim * self.heads;
        &&& self.heads >= 1
        &&& self.kv_dim >= 1
        &&& q <= usize::MAX
        &&& self.input_norm.w@.len() == c
        &&& self.input_norm.b@.len() == c
        &&& self.query_proj.reads(c)
        &&& self.query_proj.c_out == q
        &&& self.query_proj.stride == 1
        &&& reads_opt(self.key_down, c)
        &&& reads_opt(self.value_down, c)
        &&& self.key_proj.reads(out_opt(self.key_down, c))
        &&& self.value_proj.reads(out_opt(self.value_down, c))
        &&& self.key_proj.c_out == self.kv_dim
        &&& self.value_proj.c_out == self.kv_dim
        &&& self.key_proj.stride == 1
        &&& self.value_proj.stride == 1
        &&& self.key_down is Some <==> self.value_down is Some
        &&& self.key_down matches Some(w) ==> w.stride == self.value_down->Some_0.stride
        &&& self.output_proj.reads(q)
        &&& self.output_proj.stride == 1
        &&& scale_sized(self.layer_scale_gamma, self.output_proj.c_out as int)
        &&& self.skip ==> self.output_proj.c_out == c
    }

    /// Maps of up to `h` by `w` positions of `b` images can be attended over.
    pub open spec fn covers(&self, b: int, h: int, w: int) -> bool {
        let q = self.kv_dim * self.heads;
        &&& self.query_proj.covers(h) && self.query_proj.covers(w)
        &&& covers_opt(self.key_down, h) && covers_opt(self.key_down, w)
        &&& covers_opt(self.value_down, h) && covers_opt(self.value_down, w)
        &&& self.key_proj.covers(h) && self.key_proj.covers(w)
        &&& self.value_proj.covers(h) && self.value_proj.covers(w)
        &&& self.output_proj.covers(h) && self.output_proj.covers(w)
        &&& b * q * (h * w) <= usize::MAX
    }
}

/// Keys or values for all heads.
pub proof fn shared_heads_have(t: Tensor, b: int, heads: int, d: int, h: int, w: int)
    requires
        has(t, seq![b, d, h, w]),
        b >= 1,
        d >= 1,
        h >= 1,
        w >= 1,
        b * d * (h * w) <= usize::MAX,
    ensures
        has(shared_heads(t, b, heads, h * w, d), seq![b, heads, h * w, d]),
{
    broadcast use extents;

    let n = h * w;
    assert(n >= 1) by (nonlinear_arith)
        requires
            n == h * w,
            h >= 1,
            w >= 1,
    ;
    products(b, d, h, w, 1, 1);
    products(b, d, n, 1, 1, 1);
    products(b, n, d, 1, 1, 1);
    products(b, 1, n, d, 1, 1);
    assert(b * d * h * w == b * d * n) by (nonlinear_arith)
        requires
            n == h * w,
    ;
    assert(b * n * d == b * d * n && b * 1 * n * d == b * n * d) by (nonlinear_arith);
    reshape_has(t, seq![b, d, n]);
    let rows = t.reshape(seq![b, d, n]).permute(seq![0, 2, 1]);
    reshape_has(rows, seq![b, 1, n, d]);
    broadcast_to_has(rows.reshape(seq![b, 1, n, d]), seq![b, heads, n, d]);
}

#[verifier::rlimit(40)]
pub proof fn mqa_has(m: &MqaWeights, x: Tensor, b: int, c: int, h: int, w: int)
    requires
        m.reads(c),
        m.covers(b, h, w),
        b >= 1,
        1 <= c <= usize::MAX,
        h >= 1,
        w >= 1,
        has(x, seq![b, c, h, w]),
    ensures
        has(m.value(x), seq![b, m.output_proj.c_out as int, h, w]),
{
    broadcast use extents;

    let heads = m.heads as int;
    let d = m.kv_dim as int;
    let q = d * heads;
    let n = h * w;
    channel_affine_keeps(x, m.input_norm.w@, m.input_norm.b@);
    let y = m.normed(x);
    conv_succeeds(&m.query_proj, y, b, c, h, w);
    maybe_has(m.key_down, y, b, c, h, w);
    maybe_has(m.value_down, y, b, c, h, w);
    let (kh, kw) = (side_opt(m.key_down, h), side_opt(m.key_down, w));
    assert(kh == side_opt(m.value_down, h) && kw == side_opt(m.value_down, w));
    conv_succeeds(
        &m.key_proj,
        Conv2dBnWeights::maybe(m.key_down, y),
        b,
        out_opt(m.key_down, c),
        kh,
        kw,
    );
    conv_succeeds(
        &m.value_proj,
        Conv2dBnWeights::maybe(m.value_down, y),
        b,
        out_opt(m.value_down, c),
        kh,
        kw,
    );
    let k = m.keys(x);
    let v = m.values(x);
    assert(has(k, seq![b, d, kh, kw]));
    assert(has(v, seq![b, d, kh, kw]));
    let len = kh * kw;
    assert(1 <= len <= n) by (nonlinear_arith)
        requires
            len == kh * kw,
            n == h * w,
            1 <= kh <= h,
            1 <= kw <= w,
    ;
    assert(q >= 1 && d <= q) by (nonlinear_arith)
        requires
            q == d * heads,
            d >= 1,
            heads >= 1,
    ;
    assert(b * d <= b * q && b * q >= 1) by (nonlinear_arith)
        requires
            b >= 1,
            1 <= d <= q,
    ;
    assert(b * d * len <= b * q * n && n <= b * q * n && len <= b * q * n) by (nonlinear_arith)
        requires
            1 <= len <= n,
            0 <= b * d <= b * q,
            b * q >= 1,
    ;
    products(b, q, h, w, 1, 1);
    products(b, heads, d, n, 1, 1);
    assert(b * q * h * w == b * q * n) by (nonlinear_arith)
        requires
            n == h * w,
    ;
    assert(b * heads * d * n == b * q * n) by (nonlinear_arith)
        requires
            q == d * heads,
    ;
    let p = m.query_proj.value(y);
    assert(has(p, seq![b, q, h, w]));
    reshape_has(p, seq![b, heads, d, n]);
    let ax = seq![0int, 1, 3, 2];
    let q0 = p.reshape(seq![b, heads, d, n]);
    permute_axes(q0, ax);
    assert(q0.permute(ax).dims =~= seq![b, heads, n, d]);
    let qs = q0.permute(ax).mul_scalar(inv_sqrt64(m.kv_dim));
    shared_heads_have(k, b, heads, d, kh, kw);
    shared_heads_have(v, b, heads, d, kh, kw);
    let ks = shared_heads(k, b, heads, len, d);
    let vs = shared_heads(v, b, heads, len, d);
    permute_axes(ks, ax);
    assert(ks.permute(ax).dims =~= seq![b, heads, d, len]);
    let ctx = qs.matmul(ks.permute(ax)).softmax_last_dim().matmul(vs);
    assert(has(ctx, seq![b, heads, n, d]));
    let rows = ctx.permute(seq![0, 2, 1, 3]);
    assert(has(rows, seq![b, n, heads, d]));
    products(b, n, heads, d, 1, 1);
    products(b, h, w, q, 1, 1);
    assert(b * n * heads * d == b * q * n) by (nonlinear_arith)
        requires
            q == d * heads,
    ;
    assert(b * h * w * q == b * q * n) by (nonlinear_arith)
        requires
            n == h * w,
    ;
    reshape_has(rows, seq![b, h, w, q]);
    let map = rows.reshape(seq![b, h, w, q]);
    let back = seq![0int, 3, 1, 2];
    permute_axes(map, back);
    let o = map.permute(back);
    assert(o.dims =~= seq![b, q, h, w]);
    conv_succeeds(&m.output_proj, o, b, q, h, w);
    scaled_skip_has(
        m.output_proj.value(o),
        m.layer_scale_gamma,
        m.skip,
        x,
        b,
        m.output_proj.c_out as int,
        h,
        w,
    );
}

impl BlockWeights {
    /// The parts fit together and read `c` channels.
    pub open spec fn reads(&self, c: int) -> bool {
        match *self {
            BlockWeights::Convolutional(v) => v.reads(c),
            BlockWeights::EdgeResidual(er) => er.conv_exp.reads(c) && er.conv_pwl.reads(
                er.conv_exp.c_out as int,
            ),
            BlockWeights::UniversalBottleneck(u) => u.reads(c),
            BlockWeights::Attention(m) => m.reads(c),
        }
    }

    /// Maps of up to `h` by `w` positions of `b` images can be worked on.
    pub open spec fn covers(&self, b: int, h: int, w: int) -> bool {
        match *self {
            BlockWeights::Convolutional(v) => v.covers(h) && v.covers(w),
            BlockWeights::EdgeResidual(er) => {
                &&& er.conv_exp.covers(h) && er.conv_exp.covers(w)
                &&& er.conv_pwl.covers(h) && er.conv_pwl.covers(w)
            },
            BlockWeights::UniversalBottleneck(u) => u.covers(h) && u.covers(w),
            BlockWeights::Attention(m) => m.covers(b, h, w),
        }
    }

    /// Channels of the result.
    pub open spec fn yields(&self) -> int {
        match *self {
            BlockWeights::Convolutional(v) => v.c_out as int,
            BlockWeights::EdgeResidual(er) => er.conv_pwl.c_out as int,
            BlockWeights::UniversalBottleneck(u) => u.pw_proj.c_out as int,
            BlockWeights::Attention(m) => m.output_proj.c_out as int,
        }
    }

    /// Positions along a side of `n`.
    pub open spec fn side(&self, n: int) -> int {
        match *self {
            BlockWeights::Convolutional(v) => shrunk(n, v.stride as int),
            BlockWeights::EdgeResidual(er) => shrunk(
                shrunk(n, er.conv_exp.stride as int),
                er.conv_pwl.stride as int,
            ),
            BlockWeights::UniversalBottleneck(u) => u.side(n),
            BlockWeights::Attention(_) => n,
        }
    }
}

/// A block whose parts fit together succeeds.
pub proof fn block_succeeds(v: &BlockWeights, x: Tensor, act: Mv4Activation, b: int, c: int, h: int, w: int)
    requires
        v.reads(c),
        v.covers(b, h, w),
        b >= 1,
        1 <= c <= usize::MAX,
        h >= 1,
        w >= 1,
        has(x, seq![b, c, h, w]),
    ensures
        has(v.value(x, act), seq![b, v.yields(), v.side(h), v.side(w)]),
        1 <= v.side(h) <= h,
        1 <= v.side(w) <= w,
        1 <= v.yields() <= usize::MAX,
{
    broadcast use extents;

    match *v {
        BlockWeights::Convolutional(k) => {
            conv_succeeds(&k, x, b, c, h, w);
        },
        BlockWeights::EdgeResidual(er) => {
            conv_succeeds(&er.conv_exp, x, b, c, h, w);
            let y = activated(er.conv_exp.value(x), act);
            let st = er.conv_exp.stride as int;
            assert(has(y, seq![b, er.conv_exp.c_out as int, shrunk(h, st), shrunk(w, st)]));
            conv_succeeds(
                &er.conv_pwl,
                y,
                b,
                er.conv_exp.c_out as int,
                shrunk(h, st),
                shrunk(w, st),
            );
        },
        BlockWeights::UniversalBottleneck(u) => {
            uib_has(&u, x, act, b, c, h, w);
        },
        BlockWeights::Attention(m) => {
            mqa_has(&m, x, b, c, h, w);
        },
    }
}

/// Channels after the first `n` blocks.
pub open spec fn channels_after(blocks: Seq<BlockWeights>, n: int, c: int) -> int {
    if n <= 0 {
        c
    } else {
        blocks[n - 1].yields()
    }
}

/// Positions along a side after the first `n` blocks.
pub open spec fn side_after(blocks: Seq<BlockWeights>, n: int, side: int) -> int
    decreases n,
{
    if n <= 0 {
        side
    } else {
        blocks[n - 1].side(side_after(blocks, n - 1, side))
    }
}

/// Whether block `i` reads what the one before it yields.
pub open spec fn follows(blocks: Seq<BlockWeights>, i: int, b: int, c: int, h: int, w: int) -> bool {
    &&& blocks[i].reads(channels_after(blocks, i, c))
    &&& blocks[i].covers(b, side_after(blocks, i, h), side_after(blocks, i, w))
}

/// Blocks that fit together succeed.
pub proof fn blocks_succeed(
    blocks: Seq<BlockWeights>,
    n: int,
    x: Tensor,
    act: Mv4Activation,
    b: int,
    c: int,
    h: int,
    w: int,
)
    requires
        forall|i: int| 0 <= i < blocks.len() ==> #[trigger] follows(blocks, i, b, c, h, w),
        0 <= n <= blocks.len(),
        b >= 1,
        1 <= c <= usize::MAX,
        h >= 1,
        w >= 1,
        has(x, seq![b, c, h, w]),
    ensures
        has(
            blocks_value(blocks, n, x, act),
            seq![b, channels_after(blocks, n, c), side_after(blocks, n, h), side_after(blocks, n, w)],
        ),
        1 <= side_after(blocks, n, h) <= h,
        1 <= side_after(blocks, n, w) <= w,
        1 <= channels_after(blocks, n, c) <= usize::MAX,
    decreases n,
{
    if n > 0 {
        blocks_succeed(blocks, n - 1, x, act, b, c, h, w);
        assert(follows(blocks, n - 1, b, c, h, w));
        block_succeeds(
            &blocks[n - 1],
            blocks_value(blocks, n - 1, x, act),
            act,
            b,
            channels_after(blocks, n - 1, c),
            side_after(blocks, n - 1, h),
            side_after(blocks, n - 1, w),
        );
    }
}

impl Mv4Model {
    /// Channels of the feature map.
    pub open spec fn map_channels(&self) -> int {
        channels_after(
            self.weights.blocks@,
            self.weights.blocks@.len() as int,
            self.weights.stem.c_out as int,
        )
    }

    /// Positions of the feature map along a side of `n`.
    pub open spec fn map_side(&self, n: int) -> int {
        side_after(
            self.weights.blocks@,
            self.weights.blocks@.len() as int,
            shrunk(n, self.weights.stem.stride as int),
        )
    }

    /// All blocks fit together for `b` images of `h` by `w` pixels.
    pub open spec fn fits_together(&self, b: int, h: int, w: int) -> bool {
        let stem = self.weights.stem;
        let st = stem.stride as int;
        &&& stem.reads(3)
        &&& stem.covers(h)
        &&& stem.covers(w)
        &&& forall|i: int|
            0 <= i < self.weights.blocks@.len() ==> #[trigger] follows(
                self.weights.blocks@,
                i,
                b,
                stem.c_out as int,
                shrunk(h, st),
                shrunk(w, st),
            )
    }

    /// Logits where there is a head, else pooled features.
    pub open spec fn outputs(&self) -> int {
        match self.weights.head {
            None => self.map_channels(),
            Some(head) => head.linear_b@.len() as int,
        }
    }

    /// The head reads the pooled features of one image.
    pub open spec fn head_fits(&self) -> bool {
        let out = self.config.head_out_channels as int;
        self.weights.head matches Some(head) ==> {
            let n = head.linear_b@.len() as int;
            &&& head.conv.reads(self.map_channels())
            &&& head.conv.covers(1)
            &&& head.conv.stride == 1
            &&& head.conv.c_out == out
            &&& 1 <= n <= usize::MAX
            &&& out * n <= usize::MAX
            &&& head.linear_w@.len() == out * n
        }
    }
}

/// Where all blocks fit together, the feature map of images `(b, 3, h, w)` is
/// built, with the channels of the last block.
pub proof fn features_succeed(model: &Mv4Model, image: Tensor, b: int, h: int, w: int)
    requires
        model.fits_together(b, h, w),
        b >= 1,
        h >= 1,
        w >= 1,
        has(image, seq![b, 3, h, w]),
    ensures
        has(
            model.features(image),
            seq![b, model.map_channels(), model.map_side(h), model.map_side(w)],
        ),
        1 <= model.map_channels() <= usize::MAX,
{
    broadcast use extents;

    let stem = model.weights.stem;
    let st = stem.stride as int;
    let act = model.config.activation;
    conv_succeeds(&stem, image, b, 3, h, w);
    let x = activated(stem.value(image), act);
    assert(has(x, seq![b, stem.c_out as int, shrunk(h, st), shrunk(w, st)]));
    blocks_succeed(
        model.weights.blocks@,
        model.weights.blocks@.len() as int,
        x,
        act,
        b,
        stem.c_out as int,
        shrunk(h, st),
        shrunk(w, st),
    );
}

/// The head turns pooled features `(1, c)` into one row of logits.
#[verifier::spinoff_prover]
proof fn head_succeeds(model: &Mv4Model, head: Mv4HeadWeights, pooled: Tensor)
    requires
        model.weights.head == Some(head),
        model.head_fits(),
        1 <= model.map_channels() <= usize::MAX,
        has(pooled, seq![1, model.map_channels()]),
    ensures
        ({
            let c = model.map_channels();
            let out = model.config.head_out_channels as int;
            let x = pooled.reshape(seq![1, c, 1, 1]);
            let y = activated(head.conv.value(x), model.config.activation).reshape(seq![1, out]);
            let n = head.linear_b@.len() as int;
            has(y.affine(head.linear_w@, head.linear_b@, out, n), seq![1, n])
        }),
{
    broadcast use extents;

    let c = model.map_channels();
    let out = model.config.head_out_channels as int;
    let n = head.linear_b@.len() as int;
    products(1, c, 1, 1, 1, 1);
    products(1, out, 1, 1, 1, 1);
    reshape_has(pooled, seq![1, c, 1, 1]);
    let x = pooled.reshape(seq![1, c, 1, 1]);
    conv_succeeds(&head.conv, x, 1, c, 1, 1);
    let y = activated(head.conv.value(x), model.config.activation);
    assert(has(y, seq![1, out, 1, 1]));
    reshape_has(y, seq![1, out]);
    let z = y.reshape(seq![1, out]);
    assert(has(z.linear(head.linear_w@, out, n), seq![1, n]));
}

/// Where all blocks fit together, a run over one image `(1, 3, h, w)` succeeds:
/// one row of logits, or of pooled features where there is no head.
pub proof fn forward_succeeds(model: &Mv4Model, image: Tensor, h: int, w: int)
    requires
        model.fits_together(1, h, w),
        model.head_fits(),
        h >= 1,
        w >= 1,
        has(image, seq![1, 3, h, w]),
    ensures
        has(
            model.value(image),
            seq![1, model.outputs()],
        ),
{
    features_succeed(model, image, 1, h, w);
    let pooled = model.features(image).global_avg_pool_2d();
    pool_has(model.features(image));
    assert(has(pooled, seq![1, model.map_channels()]));
    if let Some(head) = model.weights.head {
        head_succeeds(model, head, pooled);
    }
}

/// A block that reads `in_ch` channels can be run: no size is zero, kernels are
/// odd, and attention keeps its channels.
pub open spec fn block_runs(spec: BlockSpec, in_ch: int) -> bool {
    match spec {
        BlockSpec::Convolutional { out_channels, kernel, stride } => {
            out_channels >= 1 && kernel % 2 == 1 && stride >= 1
        },
        BlockSpec::EdgeResidual { out_channels, kernel, stride, expand } => {
            out_channels >= 1 && kernel % 2 == 1 && stride >= 1 && expand >= 1
        },
        BlockSpec::UniversalBottleneck { out_channels, start_kernel, mid_kernel, stride, expand } => {
            &&& out_channels >= 1
            &&& start_kernel > 0 ==> start_kernel % 2 == 1
            &&& mid_kernel > 0 ==> mid_kernel % 2 == 1
            &&& stride >= 1
            &&& expand >= 1
        },
        BlockSpec::Attention { out_channels, heads, kernel, stride, kv_dim, kv_stride } => {
            &&& out_channels == in_ch
            &&& out_channels >= 1
            &&& heads >= 1
            &&& kv_dim >= 1
            &&& kv_stride > 1 ==> kernel % 2 == 1
        },
    }
}

/// A loaded full convolution reads the channels that it declares.
proof fn loaded_dense_reads(
    st: &Checkpoint,
    e: Option<Fault>,
    conv: Seq<char>,
    bn: Seq<char>,
    c_in: int,
    c_out: int,
    k: int,
    stride: int,
    w: &Conv2dBnWeights,
)
    requires
        1 <= c_in <= usize::MAX,
        1 <= c_out <= usize::MAX,
        1 <= k <= usize::MAX,
        k % 2 == 1,
        1 <= stride <= usize::MAX,
        dense(c_in, c_out, k, stride).countable(),
        conv_bn_need(st, e, conv, bn, dense(c_in, c_out, k, stride)) is None,
        conv_bn_loaded(st, conv, bn, dense(c_in, c_out, k, stride), w),
    ensures
        w.reads(c_in),
        w.c_out == c_out,
        w.stride == stride,
{
    assert(c_in / 1 == c_in);
    assert(c_out % 1 == 0);
}

/// A loaded depthwise convolution reads the channels that it declares.
proof fn loaded_depthwise_reads(
    st: &Checkpoint,
    e: Option<Fault>,
    conv: Seq<char>,
    bn: Seq<char>,
    c: int,
    k: int,
    stride: int,
    w: &Conv2dBnWeights,
)
    requires
        1 <= c <= usize::MAX,
        1 <= k <= usize::MAX,
        k % 2 == 1,
        1 <= stride <= usize::MAX,
        depthwise(c, k, stride).countable(),
        conv_bn_need(st, e, conv, bn, depthwise(c, k, stride)) is None,
        conv_bn_loaded(st, conv, bn, depthwise(c, k, stride), w),
    ensures
        w.reads(c),
        w.c_out == c,
        w.stride == stride,
{
    vstd::arithmetic::div_mod::lemma_fundamental_div_mod_converse(c, c, 1, 0);
}

/// A loaded projection reads the channels that it declares.
proof fn loaded_proj_reads(
    st: &Checkpoint,
    e: Option<Fault>,
    prefix: Seq<char>,
    c_in: int,
    c_out: int,
    w: &Conv2dBnWeights,
)
    requires
        1 <= c_in <= usize::MAX,
        1 <= c_out <= usize::MAX,
        c_out * c_in <= usize::MAX,
        st.need_len(e, prefix + ".weight"@, c_out * c_in) is None,
        proj_loaded(st, prefix, c_in, c_out, w),
    ensures
        w.reads(c_in),
        w.c_out == c_out,
        w.stride == 1,
{
    assert(c_in / 1 == c_in);
    assert(c_out % 1 == 0);
    let n = c_out * c_in;
    assert(n * 1 * 1 == n);
}

/// A loaded bottleneck reads the channels that it was built for.
proof fn loaded_uib_reads(
    st: &Checkpoint,
    e: Option<Fault>,
    p: Seq<char>,
    spec: BlockSpec,
    in_ch: int,
    w: BlockWeights,
)
    requires
        spec is UniversalBottleneck,
        1 <= in_ch <= usize::MAX,
        block_runs(spec, in_ch),
        block_countable(spec, in_ch),
        block_need(st, e, p, spec, in_ch) is None,
        block_loaded(st, p, spec, in_ch, w),
    ensures
        w.reads(in_ch),
        w.yields() == block_out(spec),
{
    if let BlockSpec::UniversalBottleneck { out_channels, start_kernel, mid_kernel, stride, expand } = spec {
        if let BlockWeights::UniversalBottleneck(u) = w {
            let mid = in_ch * expand;
            let out = out_channels as int;
            assert(mid >= 1) by (nonlinear_arith)
                requires
                    in_ch >= 1,
                    expand >= 1,
                    mid == in_ch * expand,
            ;
            let first_stride = start_stride(mid_kernel, stride);
            let e1 = if start_kernel > 0 {
                conv_bn_need(
                    st,
                    e,
                    p + ".dw_start.conv"@,
                    p + ".dw_start.bn"@,
                    depthwise(in_ch, start_kernel as int, first_stride),
                )
            } else {
                e
            };
            let e2 = conv_bn_need(st, e1, p + ".pw_exp.conv"@, p + ".pw_exp.bn"@, dense(in_ch, mid, 1, 1));
            let e3 = if mid_kernel > 0 {
                conv_bn_need(
                    st,
                    e2,
                    p + ".dw_mid.conv"@,
                    p + ".dw_mid.bn"@,
                    depthwise(mid, mid_kernel as int, stride as int),
                )
            } else {
                e2
            };
            if let Some(c) = u.dw_start {
                loaded_depthwise_reads(
                    st,
                    e,
                    p + ".dw_start.conv"@,
                    p + ".dw_start.bn"@,
                    in_ch,
                    start_kernel as int,
                    first_stride,
                    &c,
                );
            }
            loaded_dense_reads(st, e1, p + ".pw_exp.conv"@, p + ".pw_exp.bn"@, in_ch, mid, 1, 1, &u.pw_exp);
            if let Some(c) = u.dw_mid {
                loaded_depthwise_reads(
                    st,
                    e2,
                    p + ".dw_mid.conv"@,
                    p + ".dw_mid.bn"@,
                    mid,
                    mid_kernel as int,
                    stride as int,
                    &c,
                );
            }
            loaded_dense_reads(st, e3, p + ".pw_proj.conv"@, p + ".pw_proj.bn"@, mid, out, 1, 1, &u.pw_proj);
            assert(u.reads(in_ch));
        }
    }
}

/// A loaded attention block reads the channels that it was built for.
proof fn loaded_mqa_reads(
    st: &Checkpoint,
    e: Option<Fault>,
    p: Seq<char>,
    spec: BlockSpec,
    in_ch: int,
    w: BlockWeights,
)
    requires
        spec is Attention,
        1 <= in_ch <= usize::MAX,
        block_runs(spec, in_ch),
        block_countable(spec, in_ch),
        block_need(st, e, p, spec, in_ch) is None,
        block_loaded(st, p, spec, in_ch, w),
    ensures
        w.reads(in_ch),
        w.yields() == block_out(spec),
{
    if let BlockSpec::Attention { out_channels, heads, kernel, stride, kv_dim, kv_stride } = spec {
        if let BlockWeights::Attention(m) = w {
            let width = kv_dim * heads;
            let kv = kv_dim as int;
            assert(width >= 1) by (nonlinear_arith)
                requires
                    kv_dim >= 1,
                    heads >= 1,
                    width == kv_dim * heads,
            ;
            loaded_proj_reads(st, None, p + ".attn.query.proj"@, in_ch, width, &m.query_proj);
            loaded_proj_reads(st, None, p + ".attn.key.proj"@, in_ch, kv, &m.key_proj);
            loaded_proj_reads(st, None, p + ".attn.value.proj"@, in_ch, kv, &m.value_proj);
            loaded_proj_reads(st, None, p + ".attn.output.proj"@, width, in_ch, &m.output_proj);
            if kv_stride > 1 {
                let down = depthwise(in_ch, kernel as int, kv_stride as int);
                vstd::arithmetic::div_mod::lemma_fundamental_div_mod_converse(in_ch, in_ch, 1, 0);
                assert(down.countable());
                loaded_depthwise_reads(
                    st,
                    None,
                    p + ".attn.key.down_conv"@,
                    p + ".attn.key.norm"@,
                    in_ch,
                    kernel as int,
                    kv_stride as int,
                    &m.key_down->Some_0,
                );
                loaded_depthwise_reads(
                    st,
                    None,
                    p + ".attn.value.down_conv"@,
                    p + ".attn.value.norm"@,
                    in_ch,
                    kernel as int,
                    kv_stride as int,
                    &m.value_down->Some_0,
                );
            }
            assert(m.reads(in_ch));
        }
    }
}

/// A loaded block reads the channels that it was built for.
proof fn loaded_block_reads(
    st: &Checkpoint,
    e: Option<Fault>,
    p: Seq<char>,
    spec: BlockSpec,
    in_ch: int,
    w: BlockWeights,
)
    requires
        1 <= in_ch <= usize::MAX,
        block_runs(spec, in_ch),
        block_countable(spec, in_ch),
        block_need(st, e, p, spec, in_ch) is None,
        block_loaded(st, p, spec, in_ch, w),
    ensures
        w.reads(in_ch),
        w.yields() == block_out(spec),
        block_out(spec) >= 1,
{
    match spec {
        BlockSpec::Convolutional { out_channels, kernel, stride } => {
            if let BlockWeights::Convolutional(c) = w {
                loaded_dense_reads(
                    st,
                    e,
                    p + ".conv"@,
                    p + ".bn1"@,
                    in_ch,
                    out_channels as int,
                    kernel as int,
                    stride as int,
                    &c,
                );
            }
        },
        BlockSpec::EdgeResidual { out_channels, kernel, stride, expand } => {
            if let BlockWeights::EdgeResidual(er) = w {
                let mid = in_ch * expand;
                let out = out_channels as int;
                assert(mid >= 1) by (nonlinear_arith)
                    requires
                        in_ch >= 1,
                        expand >= 1,
                        mid == in_ch * expand,
                ;
                let size = dense(in_ch, mid, kernel as int, stride as int);
                let e1 = conv_bn_need(st, e, p + ".conv_exp"@, p + ".bn1"@, size);
                loaded_dense_reads(
                    st,
                    e,
                    p + ".conv_exp"@,
                    p + ".bn1"@,
                    in_ch,
                    mid,
                    kernel as int,
                    stride as int,
                    &er.conv_exp,
                );
                loaded_dense_reads(st, e1, p + ".conv_pwl"@, p + ".bn2"@, mid, out, 1, 1, &er.conv_pwl);
            }
        },
        BlockSpec::UniversalBottleneck { .. } => {
            loaded_uib_reads(st, e, p, spec, in_ch, w);
        },
        BlockSpec::Attention { .. } => {
            loaded_mqa_reads(st, e, p, spec, in_ch, w);
        },
    }
}

impl Mv4Config {
    /// The blocks of the first `s` stages can be run, one after the other.
    pub open spec fn runs(&self, s: int) -> bool {
        &&& self.stem_dim >= 1
        &&& forall|t: int, b: int|
            0 <= t < s && 0 <= b < self.stage(t).len() ==> block_runs(
                #[trigger] self.stage(t)[b],
                self.block_in(t, b),
            )
    }
}

/// Whether the weights of block `b` of stage `s` read the channels before it
/// and yield those that the block declares.
spec fn block_fits(w: &Mv4Weights, cfg: &Mv4Config, s: int, b: int) -> bool {
    let block = w.blocks@[cfg.blocks_before(s) + b];
    &&& block.reads(cfg.block_in(s, b))
    &&& block.yields() == block_out(cfg.stage(s)[b])
}

/// Every stage reads at least one channel.
proof fn stage_reads_some(cfg: &Mv4Config, s: int)
    requires
        0 <= s <= 5,
        cfg.runs(5),
    ensures
        1 <= cfg.stage_in(s) <= usize::MAX,
    decreases s,
{
    if s > 0 {
        stage_reads_some(cfg, s - 1);
        let n = cfg.stage(s - 1).len() as int;
        if n > 0 {
            assert(block_runs(cfg.stage(s - 1)[n - 1], cfg.block_in(s - 1, n - 1)));
        }
    }
}

/// A loaded block reads the channels before it.
proof fn loaded_block_fits(
    w: &Mv4Weights,
    st: &Checkpoint,
    cfg: &Mv4Config,
    with_head: Option<usize>,
    e: Option<Fault>,
    s: int,
    b: int,
)
    requires
        0 <= s < 5,
        0 <= b < cfg.stage(s).len(),
        cfg.loadable(with_head),
        cfg.runs(5),
        w.loaded(st, cfg, with_head),
        block_need(st, e, block_prefix(s, b), cfg.stage(s)[b], cfg.block_in(s, b)) is None,
    ensures
        block_fits(w, cfg, s, b),
{
    let spec = cfg.stage(s)[b];
    let c = cfg.block_in(s, b);
    stage_reads_some(cfg, s);
    if b > 0 {
        assert(block_runs(cfg.stage(s)[b - 1], cfg.block_in(s, b - 1)));
    }
    loaded_block_reads(st, e, block_prefix(s, b), spec, c, w.blocks@[cfg.blocks_before(s) + b]);
}

/// Where the first `n` blocks of a stage were loaded, each of them was.
proof fn each_block_loads(st: &Checkpoint, cfg: &Mv4Config, e: Option<Fault>, s: int, n: int, b: int)
    requires
        0 <= b < n,
        stage_need(st, cfg, e, s, n) is None,
    ensures
        block_need(
            st,
            stage_need(st, cfg, e, s, b),
            block_prefix(s, b),
            cfg.stage(s)[b],
            cfg.block_in(s, b),
        ) is None,
    decreases n,
{
    if b < n - 1 {
        let f = stage_need(st, cfg, e, s, n - 1);
        block_need_keeps(st, f, block_prefix(s, n - 1), cfg.stage(s)[n - 1], cfg.block_in(s, n - 1));
        each_block_loads(st, cfg, e, s, n - 1, b);
    }
}

/// Where the first `n` stages were loaded, each of them was, and so was what
/// comes before them.
proof fn each_stage_loads(st: &Checkpoint, cfg: &Mv4Config, e: Option<Fault>, n: int, s: int)
    requires
        0 <= s < n,
        stages_need(st, cfg, e, n) is None,
    ensures
        stage_need(st, cfg, stages_need(st, cfg, e, s), s, cfg.stage(s).len() as int) is None,
        e is None,
    decreases n,
{
    let f = stages_need(st, cfg, e, n - 1);
    stage_need_keeps(st, cfg, f, n - 1, cfg.stage(n - 1).len() as int);
    if s < n - 1 {
        each_stage_loads(st, cfg, e, n - 1, s);
    } else if s > 0 {
        each_stage_loads(st, cfg, e, n - 1, 0);
    }
}

/// Block `i` reads what the blocks before it yield.
spec fn block_follows(w: &Mv4Weights, cfg: &Mv4Config, i: int) -> bool {
    w.blocks@[i].reads(channels_after(w.blocks@, i, cfg.stem_dim as int))
}

/// The blocks of the first `s` stages follow one another where each of them
/// reads the channels that the configuration puts before it.
proof fn stages_follow(w: &Mv4Weights, cfg: &Mv4Config, s: int)
    requires
        0 <= s <= 5,
        forall|t: int, b: int|
            0 <= t < 5 && 0 <= b < cfg.stage(t).len() ==> #[trigger] block_fits(w, cfg, t, b),
    ensures
        0 <= cfg.blocks_before(s),
        forall|i: int| 0 <= i < cfg.blocks_before(s) ==> #[trigger] block_follows(w, cfg, i),
        channels_after(w.blocks@, cfg.blocks_before(s), cfg.stem_dim as int) == cfg.stage_in(s),
    decreases s,
{
    if s > 0 {
        let t = s - 1;
        let start = cfg.blocks_before(t);
        let len = cfg.stage(t).len() as int;
        stages_follow(w, cfg, t);
        assert forall|i: int| start <= i < start + len implies #[trigger] block_follows(w, cfg, i) by {
            assert(block_fits(w, cfg, t, i - start));
            if i > start {
                assert(block_fits(w, cfg, t, i - start - 1));
            }
        }
        if len > 0 {
            assert(block_fits(w, cfg, t, len - 1));
        }
    }
}

/// Weights that were loaded fit together: each block reads the channels that
/// the one before it yields, and the head reads those of the last one.
pub proof fn loaded_weights_fit(model: &Mv4Model, st: &Checkpoint, with_head: Option<usize>)
    requires
        model.config.loadable(with_head),
        model.config.runs(5),
        Mv4Weights::load_failure(st, &model.config, with_head) is None,
        model.weights.loaded(st, &model.config, with_head),
        with_head matches Some(n) ==> {
            &&& n >= 1
            &&& model.config.head_out_channels >= 1
            &&& model.config.head_in_channels == model.config.stage_in(5)
        },
    ensures
        model.weights.stem.reads(3),
        forall|i: int|
            0 <= i < model.weights.blocks@.len() ==> (#[trigger] model.weights.blocks@[i]).reads(
                channels_after(model.weights.blocks@, i, model.weights.stem.c_out as int),
            ),
        model.map_channels() == model.config.stage_in(5),
        model.head_fits(),
{
    let cfg = &model.config;
    let w = &model.weights;
    let e = conv_bn_need(st, None, "conv_stem"@, "bn1"@, stem_size(cfg));
    assert(stages_need(st, cfg, e, 5) is None);
    each_stage_loads(st, cfg, e, 5, 0);
    let stem = cfg.stem_dim as int;
    assert(kernel_len(stem, 3, 3) == stem * 27 && stem * 3 * 3 <= stem * 27 && stem * 3 <= stem * 27)
        by (nonlinear_arith)
        requires
            stem >= 1,
            kernel_len(stem, 3, 3) == stem * 3 * 3 * 3,
    ;
    assert(3int / 1 == 3);
    assert(dense(3, stem, 3, 2).countable());
    loaded_dense_reads(st, None, "conv_stem"@, "bn1"@, 3, stem, 3, 2, &w.stem);
    assert forall|s: int, b: int| 0 <= s < 5 && 0 <= b < cfg.stage(s).len() implies #[trigger] block_fits(
        w,
        cfg,
        s,
        b,
    ) by {
        let f = stages_need(st, cfg, e, s);
        each_stage_loads(st, cfg, e, 5, s);
        each_block_loads(st, cfg, f, s, cfg.stage(s).len() as int, b);
        loaded_block_fits(w, st, cfg, with_head, stage_need(st, cfg, f, s, b), s, b);
    }
    stages_follow(w, cfg, 5);
    stage_reads_some(cfg, 5);
    assert forall|i: int| 0 <= i < w.blocks@.len() implies (#[trigger] w.blocks@[i]).reads(
        channels_after(w.blocks@, i, w.stem.c_out as int),
    ) by {
        assert(block_follows(w, cfg, i));
    }
    if let Some(n) = with_head {
        let c = cfg.head_in_channels as int;
        let out = cfg.head_out_channels as int;
        let head = w.head->Some_0;
        assert(c / 1 == c);
        assert(out % 1 == 0);
        assert(n * out == out * n && out * n >= 0) by (nonlinear_arith)
            requires
                n >= 0,
                out >= 0,
        ;
        let m = out * c;
        assert(m * 1 * 1 == m);
        assert(head.conv.reads(c));
    }
}

/// Whether the elements of a square kernel can be counted.
fn can_count_kernel(c_out: usize, per_group: usize, k: usize) -> (r: bool)
    ensures
        r == kernel_countable(c_out as int, per_group as int, k as int),
{
    match c_out.checked_mul(per_group) {
        None => false,
        Some(a) => match a.checked_mul(k) {
            None => false,
            Some(b) => b.checked_mul(k).is_some(),
        },
    }
}

fn can_count_depthwise(c: usize, k: usize) -> (r: bool)
    ensures
        forall|stride: int| r == #[trigger] depthwise(c as int, k as int, stride).countable(),
{
    proof {
        if c > 0 {
            vstd::arithmetic::div_mod::lemma_fundamental_div_mod_converse(c as int, c as int, 1, 0);
        }
    }
    c > 0 && can_count_kernel(c, 1, k)
}

fn can_count_dense(c_in: usize, c_out: usize, k: usize) -> (r: bool)
    ensures
        forall|stride: int| r == #[trigger] dense(c_in as int, c_out as int, k as int, stride).countable(),
{
    assert(c_in as int / 1 == c_in);
    can_count_kernel(c_out, c_in, k)
}

/// Whether the tensors of a block that reads `in_ch` channels can be counted.
pub fn can_count_block(spec: &BlockSpec, in_ch: usize) -> (r: bool)
    ensures
        r == block_countable(*spec, in_ch as int),
{
    match *spec {
        BlockSpec::Convolutional { out_channels, kernel, stride } => {
            let r = can_count_dense(in_ch, out_channels, kernel);
            assert(r == dense(in_ch as int, out_channels as int, kernel as int, stride as int).countable());
            r
        },
        BlockSpec::EdgeResidual { out_channels, kernel, stride, expand } => match in_ch.checked_mul(expand) {
            None => false,
            Some(mid) => {
                let a = can_count_dense(in_ch, mid, kernel);
                let b = can_count_dense(mid, out_channels, 1);
                assert(a == dense(in_ch as int, mid as int, kernel as int, stride as int).countable());
                assert(b == dense(mid as int, out_channels as int, 1, 1).countable());
                a && b
            },
        },
        BlockSpec::UniversalBottleneck { out_channels, start_kernel, mid_kernel, stride, expand } => {
            match in_ch.checked_mul(expand) {
                None => false,
                Some(mid) => {
                    let a = start_kernel == 0 || can_count_depthwise(in_ch, start_kernel);
                    let b = can_count_dense(in_ch, mid, 1);
                    let c = mid_kernel == 0 || can_count_depthwise(mid, mid_kernel);
                    let d = can_count_dense(mid, out_channels, 1);
                    assert(start_kernel > 0 ==> a == depthwise(in_ch as int, start_kernel as int, 1).countable());
                    assert(b == dense(in_ch as int, mid as int, 1, 1).countable());
                    assert(mid_kernel > 0 ==> c == depthwise(
                        mid as int,
                        mid_kernel as int,
                        stride as int,
                    ).countable());
                    assert(d == dense(mid as int, out_channels as int, 1, 1).countable());
                    a && b && c && d
                },
            }
        },
        BlockSpec::Attention { out_channels, heads, kernel, stride, kv_dim, kv_stride } => {
            match kv_dim.checked_mul(heads) {
                None => false,
                Some(q) => q.checked_mul(in_ch).is_some() && kv_dim.checked_mul(in_ch).is_some()
                    && out_channels.checked_mul(q).is_some() && (kv_stride <= 1 || can_count_kernel(
                    in_ch,
                    1,
                    kernel,
                )),
            }
        },
    }
}

impl Mv4Config {
    /// Whether the stored tensors can be counted.
    pub fn is_loadable(&self, nclasses: Option<usize>) -> (r: bool)
        ensures
            r == self.loadable(nclasses),
    {
        if self.stem_dim.checked_mul(27).is_none() || self.head_out_channels.checked_mul(
            self.head_in_channels,
        ).is_none() {
            return false;
        }
        if let Some(n) = nclasses {
            if n.checked_mul(self.head_out_channels).is_none() {
                return false;
            }
        }
        let mut cur: usize = self.stem_dim;
        let mut s: usize = 0;
        while s < 5
            invariant
                s <= 5,
                cur == self.stage_in(s as int),
                self.stem_dim * 27 <= usize::MAX,
                self.head_out_channels * self.head_in_channels <= usize::MAX,
                nclasses matches Some(n) ==> n * self.head_out_channels <= usize::MAX,
                forall|t: int, b: int|
                    0 <= t < s && 0 <= b < self.stage(t).len() ==> block_countable(
                        #[trigger] self.stage(t)[b],
                        self.block_in(t, b),
                    ),
            decreases 5 - s,
        {
            let stage = &self.stages[s];
            let mut b: usize = 0;
            while b < stage.len()
                invariant
                    s < 5,
                    stage@ == self.stage(s as int),
                    b <= stage@.len(),
                    cur == self.block_in(s as int, b as int),
                    forall|j: int|
                        0 <= j < b ==> block_countable(
                            #[trigger] self.stage(s as int)[j],
                            self.block_in(s as int, j),
                        ),
                decreases stage@.len() - b,
            {
                if !can_count_block(&stage[b], cur) {
                    assert(!block_countable(
                        self.stage(s as int)[b as int],
                        self.block_in(s as int, b as int),
                    ));
                    return false;
                }
                cur = match stage[b] {
                    BlockSpec::Convolutional { out_channels, .. } => out_channels,
                    BlockSpec::EdgeResidual { out_channels, .. } => out_channels,
                    BlockSpec::UniversalBottleneck { out_channels, .. } => out_channels,
                    BlockSpec::Attention { out_channels, .. } => out_channels,
                };
                b = b + 1;
            }
            s = s + 1;
        }
        true
    }
}

} // verus!
