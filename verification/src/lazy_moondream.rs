//! Moondream: a vision tower whose projected patches precede the text tokens of
//! a [`crate::lazy_mixformer`] decoder.
//!
//! Patches are embedded by a linear map, not by a convolution.

use crate::common::{attend_full, full_attention, full_attention_has};
use crate::error::Error;
use crate::extents::{
    broadcast_to_has, constant_has, embed_has, extents, has, permute_axes, products, reshape_has,
};
use crate::lazy::{outcome, LazyTensor, Tensor, WeightStorage};
use crate::lazy_mixformer::{embeds_run_succeeds, MixFormerConfig, MixFormerModel, MixFormerWeights};
use crate::scalar::{inv_sqrt64, Data, Scalar};
use vstd::prelude::*;

verus! {

#[derive(Debug, Clone, Copy, PartialEq, Eq, Structural)]
pub enum MoondreamActivation {
    GeluPytorchTanh,
    Gelu,
}

#[derive(Debug, Clone)]
pub struct MoondreamVisionConfig {
    pub embed_dim: usize,
    pub num_blocks: usize,
    pub num_heads: usize,
    /// Width inside the feed-forward part.
    pub mlp_hidden: usize,
    /// Number of patches of an image.
    pub num_patches: usize,
    pub patch_size: usize,
    pub num_channels: usize,
    /// Side of an image.
    pub image_size: usize,
    pub activation: MoondreamActivation,
    pub layer_norm_eps: Scalar,
}

impl MoondreamVisionConfig {
    /// Elements of a patch.
    pub open spec fn patch_len(&self) -> int {
        self.num_channels * self.patch_size * self.patch_size
    }

    /// Patches along one side.
    pub open spec fn side(&self) -> int {
        self.image_size as int / self.patch_size as int
    }

    /// The patches tile the image, there are heads, and the widths can be
    /// counted.
    pub open spec fn valid(&self) -> bool {
        &&& self.patch_size > 0
        &&& self.num_heads > 0
        &&& self.side() * self.side() == self.num_patches
        &&& self.num_channels * self.patch_size <= usize::MAX
        &&& self.patch_len() <= usize::MAX
        &&& 3 * self.embed_dim <= usize::MAX
    }

    /// Elements of a patch.
    pub fn patch_input_dim(&self) -> (r: usize)
        requires
            self.num_channels * self.patch_size <= usize::MAX,
            self.patch_len() <= usize::MAX,
        ensures
            r == self.patch_len(),
    {
        self.num_channels * self.patch_size * self.patch_size
    }

    /// The second version: images of 378 by 378 in 729 patches.
    pub fn v2() -> (r: Self)
        ensures
            r == (MoondreamVisionConfig {
                embed_dim: 1152,
                num_blocks: 27,
                num_heads: 16,
                mlp_hidden: 4304,
                num_patches: 729,
                patch_size: 14,
                num_channels: 3,
                image_size: 378,
                activation: MoondreamActivation::GeluPytorchTanh,
                layer_norm_eps: Scalar::F64(0x3EE4_F8B5_88E3_68F1),
            }),
            r.valid(),
    {
        let r = MoondreamVisionConfig {
            embed_dim: 1152,
            num_blocks: 27,
            num_heads: 16,
            mlp_hidden: 4304,
            num_patches: 729,
            patch_size: 14,
            num_channels: 3,
            image_size: 378,
            activation: MoondreamActivation::GeluPytorchTanh,
            layer_norm_eps: Scalar::F64(0x3EE4_F8B5_88E3_68F1),
        };
        assert(r.side() == 27);
        assert(r.side() * r.side() == 729) by (nonlinear_arith)
            requires
                r.side() == 27,
        ;
        r
    }
}

#[derive(Debug, Clone, Copy, PartialEq, Eq, Structural)]
pub struct MoondreamProjectionConfig {
    /// Width of the vision tower.
    pub in_dim: usize,
    pub hidden_dim: usize,
    /// Width of the language model.
    pub out_dim: usize,
    pub activation: MoondreamActivation,
}

impl MoondreamProjectionConfig {
    pub fn v2() -> (r: Self)
        ensures
            r == (MoondreamProjectionConfig {
                in_dim: 1152,
                hidden_dim: 8192,
                out_dim: 2048,
                activation: MoondreamActivation::GeluPytorchTanh,
            }),
    {
        MoondreamProjectionConfig {
            in_dim: 1152,
            hidden_dim: 2048 * 4,
            out_dim: 2048,
            activation: MoondreamActivation::GeluPytorchTanh,
        }
    }
}

#[derive(Debug, Clone)]
pub struct MoondreamVisionBlockWeights {
    pub norm1_gain: Data,
    pub norm1_bias: Data,
    /// `[embed_dim, 3 * embed_dim]`.
    pub qkv: WeightStorage,
    pub qkv_bias: Data,
    pub proj: WeightStorage,
    pub proj_bias: Data,
    pub norm2_gain: Data,
    pub norm2_bias: Data,
    pub fc1: WeightStorage,
    pub fc1_bias: Data,
    pub fc2: WeightStorage,
    pub fc2_bias: Data,
}

#[derive(Debug, Clone)]
pub struct MoondreamVisionWeights {
    /// `[channels * patch * patch, embed_dim]`.
    pub patch_embed: WeightStorage,
    pub patch_embed_bias: Data,
    /// `[num_patches, embed_dim]`.
    pub pos_embed: Data,
    pub blocks: Vec<MoondreamVisionBlockWeights>,
    pub norm_gain: Data,
    pub norm_bias: Data,
}

#[derive(Debug, Clone)]
pub struct MoondreamProjectionWeights {
    pub fc1: WeightStorage,
    pub fc1_bias: Data,
    pub fc2: WeightStorage,
    pub fc2_bias: Data,
}

#[derive(Debug, Clone)]
pub struct MoondreamWeights {
    pub vision: MoondreamVisionWeights,
    pub projection: MoondreamProjectionWeights,
    pub text: MixFormerWeights,
}

#[derive(Debug, Clone)]
pub struct MoondreamConfig {
    pub vision: MoondreamVisionConfig,
    pub projection: MoondreamProjectionConfig,
    pub text: MixFormerConfig,
}

#[derive(Debug, Clone)]
pub struct MoondreamModel {
    pub config: MoondreamConfig,
    pub weights: MoondreamWeights,
}

pub open spec fn activated(x: Tensor, kind: MoondreamActivation) -> Tensor {
    match kind {
        MoondreamActivation::GeluPytorchTanh => x.gelu(),
        MoondreamActivation::Gelu => x.gelu_erf(),
    }
}

/// Two linear maps with an activation between them.
pub open spec fn mlp(
    x: Tensor,
    w1: Seq<Scalar>,
    b1: Seq<Scalar>,
    w2: Seq<Scalar>,
    b2: Seq<Scalar>,
    fan_in: int,
    hidden: int,
    fan_out: int,
    kind: MoondreamActivation,
) -> Tensor {
    activated(x.affine(w1, b1, fan_in, hidden), kind).affine(w2, b2, hidden, fan_out)
}

/// One block of the vision tower.
pub open spec fn block_value(
    cfg: &MoondreamVisionConfig,
    w: &MoondreamVisionBlockWeights,
    x: Tensor,
) -> Tensor {
    let h = cfg.embed_dim as int;
    let heads = cfg.num_heads as int;
    let d = h / heads;
    let qkv = x.layer_norm(w.norm1_gain@, w.norm1_bias@, h, cfg.layer_norm_eps).affine(
        w.qkv@,
        w.qkv_bias@,
        h,
        3 * h,
    );
    let ctx = full_attention(
        qkv.narrow(2, 0, h).split_heads(heads, d),
        qkv.narrow(2, h, h).split_heads(heads, d),
        qkv.narrow(2, 2 * h, h).split_heads(heads, d),
        inv_sqrt64(d as usize),
    );
    let h1 = x.add(ctx.merge_heads().affine(w.proj@, w.proj_bias@, h, h));
    h1.add(
        mlp(
            h1.layer_norm(w.norm2_gain@, w.norm2_bias@, h, cfg.layer_norm_eps),
            w.fc1@,
            w.fc1_bias@,
            w.fc2@,
            w.fc2_bias@,
            h,
            cfg.mlp_hidden as int,
            h,
            cfg.activation,
        ),
    )
}

/// The first `n` blocks, one after the other.
pub open spec fn blocks_value(
    cfg: &MoondreamVisionConfig,
    blocks: Seq<MoondreamVisionBlockWeights>,
    n: int,
    x: Tensor,
) -> Tensor
    decreases n,
{
    if n <= 0 {
        x
    } else {
        block_value(cfg, &blocks[n - 1], blocks_value(cfg, blocks, n - 1, x))
    }
}

impl MoondreamModel {
    /// The patches `(batch, num_patches, patch_len)` of the image.
    pub open spec fn patches(&self, image: Tensor) -> Tensor {
        let cfg = &self.config.vision;
        let p = cfg.patch_size as int;
        let s = cfg.side();
        image.reshape(seq![image.dim(0), cfg.num_channels as int, s, p, s, p]).permute(
            seq![0, 2, 4, 1, 3, 5],
        ).reshape(seq![image.dim(0), cfg.num_patches as int, cfg.patch_len()])
    }

    /// The vision tower on the image.
    pub open spec fn vision(&self, image: Tensor) -> Tensor {
        let cfg = &self.config.vision;
        let w = &self.weights.vision;
        let n = cfg.num_patches as int;
        let e = cfg.embed_dim as int;
        let pos = Tensor::constant(w.pos_embed@, seq![n, e]).reshape(seq![1, n, e]).broadcast_to(
            seq![image.dim(0), n, e],
        );
        let x = self.patches(image).affine(
            w.patch_embed@,
            w.patch_embed_bias@,
            cfg.patch_len(),
            e,
        ).add(pos);
        blocks_value(cfg, w.blocks@, w.blocks@.len() as int, x).layer_norm(
            w.norm_gain@,
            w.norm_bias@,
            e,
            cfg.layer_norm_eps,
        )
    }

    /// The projected patches, at the width of the language model.
    pub open spec fn projected(&self, image: Tensor) -> Tensor {
        let cfg = &self.config.projection;
        let w = &self.weights.projection;
        mlp(
            self.vision(image),
            w.fc1@,
            w.fc1_bias@,
            w.fc2@,
            w.fc2_bias@,
            cfg.in_dim as int,
            cfg.hidden_dim as int,
            cfg.out_dim as int,
            cfg.activation,
        )
    }

    /// The projected patches, then the embedded text tokens.
    pub open spec fn combined(&self, image: Tensor, tokens: Seq<u32>) -> Tensor {
        self.projected(image).concat(
            Tensor::embed_tokens(
                self.weights.text.token_embedding@,
                self.config.text.vocab_size as int,
                self.config.text.hidden_size as int,
                tokens,
            ),
            1,
        )
    }

    /// The language model.
    pub open spec fn decoder(&self) -> MixFormerModel {
        MixFormerModel { config: self.config.text, weights: self.weights.text }
    }

    /// Logits of patches and text tokens.
    pub open spec fn logits(&self, image: Tensor, tokens: Seq<u32>) -> Tensor {
        let c = self.combined(image, tokens);
        self.decoder().logits(c, 0, c.dim(1))
    }

    /// Whether `image` is `(1, num_channels, image_size, image_size)`.
    pub open spec fn accepts(&self, image: Tensor) -> bool {
        let cfg = &self.config.vision;
        &&& image.rank() == 4
        &&& image.dim(0) == 1
        &&& image.dim(1) == cfg.num_channels
        &&& image.dim(2) == cfg.image_size
        &&& image.dim(3) == cfg.image_size
    }

    /// Logits `(1, num_patches + seq, vocab_size)` of an image followed by text.
    pub fn forward(&self, pixel_values: &LazyTensor, text_tokens: &[u32]) -> (r: Result<
        LazyTensor,
        Error,
    >)
        requires
            self.config.vision.valid(),
            self.config.text.valid(),
            self.config.projection.out_dim == self.config.text.hidden_size,
            self.accepts(pixel_values@),
            text_tokens@.len() > 0,
        ensures
            outcome(r, self.logits(pixel_values@, text_tokens@)),
    {
        let cfg = &self.config;
        let projected = self.apply_projection(&self.vision_encode(pixel_values));
        let text_embeds = LazyTensor::embed_tokens(
            &self.weights.text.token_embedding,
            cfg.text.vocab_size,
            cfg.text.hidden_size,
            text_tokens,
        );
        let combined = projected.concat(&text_embeds, 1);
        MixFormerModel::run_logits(&cfg.text, &self.weights.text, &combined, 0, combined.dim(1)).finish()
    }

    fn vision_encode(&self, pixel_values: &LazyTensor) -> (r: LazyTensor)
        requires
            self.config.vision.valid(),
        ensures
            r@ == self.vision(pixel_values@),
    {
        let cfg = &self.config.vision;
        let weights = &self.weights.vision;
        let batch: usize = pixel_values.dim(0);
        let np_side: usize = cfg.image_size / cfg.patch_size;
        let p: usize = cfg.patch_size;
        let patch_len: usize = cfg.patch_input_dim();
        let patches = pixel_values.reshape6(batch, cfg.num_channels, np_side, p, np_side, p).permute6(
            0,
            2,
            4,
            1,
            3,
            5,
        ).reshape3(batch, cfg.num_patches, patch_len);
        let patch_embeds = patches.affine(
            weights.patch_embed.data(),
            &weights.patch_embed_bias,
            patch_len,
            cfg.embed_dim,
        );
        let pos = LazyTensor::const2(&weights.pos_embed, cfg.num_patches, cfg.embed_dim).reshape3(
            1,
            cfg.num_patches,
            cfg.embed_dim,
        ).broadcast_to3(batch, cfg.num_patches, cfg.embed_dim);
        let mut h = patch_embeds.add(&pos);
        let ghost h0 = h@;
        let mut i: usize = 0;
        while i < weights.blocks.len()
            invariant
                cfg == &self.config.vision,
                weights == &self.weights.vision,
                cfg.valid(),
                i <= weights.blocks@.len(),
                h@ == blocks_value(cfg, weights.blocks@, i as int, h0),
            decreases weights.blocks@.len() - i,
        {
            h = self.apply_block(&h, &weights.blocks[i]);
            i = i + 1;
        }
        h.layer_norm(&weights.norm_gain, &weights.norm_bias, cfg.embed_dim, &cfg.layer_norm_eps)
    }

    fn apply_block(&self, x: &LazyTensor, block: &MoondreamVisionBlockWeights) -> (r: LazyTensor)
        requires
            self.config.vision.valid(),
        ensures
            r@ == block_value(&self.config.vision, block, x@),
    {
        let cfg = &self.config.vision;
        let h: usize = cfg.embed_dim;
        let n_heads: usize = cfg.num_heads;
        let head_dim: usize = cfg.embed_dim / cfg.num_heads;
        let x_norm = x.layer_norm(&block.norm1_gain, &block.norm1_bias, h, &cfg.layer_norm_eps);
        let qkv = x_norm.affine(block.qkv.data(), &block.qkv_bias, h, 3 * h);
        let q = qkv.narrow(2, 0, h).split_heads(n_heads, head_dim);
        let k = qkv.narrow(2, h, h).split_heads(n_heads, head_dim);
        let v = qkv.narrow(2, 2 * h, h).split_heads(n_heads, head_dim);
        let ctx = attend_full(&q, &k, &v, &Scalar::inv_sqrt64(head_dim));
        let attn_out = ctx.merge_heads().affine(block.proj.data(), &block.proj_bias, h, h);
        let h1 = x.add(&attn_out);
        let h1_norm = h1.layer_norm(&block.norm2_gain, &block.norm2_bias, h, &cfg.layer_norm_eps);
        let fc1 = h1_norm.affine(block.fc1.data(), &block.fc1_bias, h, cfg.mlp_hidden);
        let act = activate(&fc1, cfg.activation);
        h1.add(&act.affine(block.fc2.data(), &block.fc2_bias, cfg.mlp_hidden, h))
    }

    fn apply_projection(&self, vision_out: &LazyTensor) -> (r: LazyTensor)
        ensures
            r@ == mlp(
                vision_out@,
                self.weights.projection.fc1@,
                self.weights.projection.fc1_bias@,
                self.weights.projection.fc2@,
                self.weights.projection.fc2_bias@,
                self.config.projection.in_dim as int,
                self.config.projection.hidden_dim as int,
                self.config.projection.out_dim as int,
                self.config.projection.activation,
            ),
    {
        let cfg = &self.config.projection;
        let weights = &self.weights.projection;
        let fc1 = vision_out.affine(weights.fc1.data(), &weights.fc1_bias, cfg.in_dim, cfg.hidden_dim);
        let act = activate(&fc1, cfg.activation);
        act.affine(weights.fc2.data(), &weights.fc2_bias, cfg.hidden_dim, cfg.out_dim)
    }
}

/// Applies an activation.
pub fn activate(x: &LazyTensor, kind: MoondreamActivation) -> (r: LazyTensor)
    ensures
        r@ == activated(x@, kind),
{
    match kind {
        MoondreamActivation::GeluPytorchTanh => x.gelu(),
        MoondreamActivation::Gelu => x.gelu_erf(),
    }
}

impl MoondreamVisionConfig {
    /// The patches tile the whole image, the heads fill the width, all sizes are
    /// positive, and every tensor can be addressed.
    pub open spec fn addressable(&self) -> bool {
        let e = self.embed_dim as int;
        &&& self.valid()
        &&& self.side() * self.patch_size == self.image_size
        &&& self.num_heads * (e / self.num_heads as int) == e
        &&& self.num_channels >= 1
        &&& self.image_size >= 1
        &&& e >= 1
        &&& self.mlp_hidden >= 1
        &&& self.num_channels * (self.image_size * self.image_size) <= usize::MAX
        &&& self.patch_len() * e <= usize::MAX
        &&& self.num_patches * e <= usize::MAX
        &&& e * (3 * e) <= usize::MAX
        &&& e * self.mlp_hidden <= usize::MAX
    }
}

impl MoondreamVisionBlockWeights {
    /// Every weight has the size that the configuration declares.
    pub open spec fn sized(&self, cfg: &MoondreamVisionConfig) -> bool {
        let e = cfg.embed_dim as int;
        let m = cfg.mlp_hidden as int;
        &&& self.norm1_gain@.len() == e
        &&& self.norm1_bias@.len() == e
        &&& self.qkv@.len() == e * (3 * e)
        &&& self.qkv_bias@.len() == 3 * e
        &&& self.proj@.len() == e * e
        &&& self.proj_bias@.len() == e
        &&& self.norm2_gain@.len() == e
        &&& self.norm2_bias@.len() == e
        &&& self.fc1@.len() == e * m
        &&& self.fc1_bias@.len() == m
        &&& self.fc2@.len() == m * e
        &&& self.fc2_bias@.len() == e
    }
}

impl MoondreamModel {
    /// Every weight has the size that the configuration declares, and for `seq`
    /// text tokens every tensor can be addressed.
    pub open spec fn addressable(&self, seq: int) -> bool {
        let v = &self.config.vision;
        let p = &self.config.projection;
        let w = &self.weights;
        let e = v.embed_dim as int;
        &&& v.addressable()
        &&& self.config.text.addressable(v.num_patches + seq)
        &&& w.text.sized(&self.config.text)
        &&& seq >= 1
        &&& v.num_patches >= 1
        &&& w.vision.patch_embed@.len() == v.patch_len() * e
        &&& w.vision.patch_embed_bias@.len() == e
        &&& w.vision.pos_embed@.len() == v.num_patches * e
        &&& forall|i: int| 0 <= i < w.vision.blocks@.len() ==> (#[trigger] w.vision.blocks@[i]).sized(v)
        &&& w.vision.norm_gain@.len() == e
        &&& w.vision.norm_bias@.len() == e
        &&& p.in_dim == e
        &&& p.out_dim == self.config.text.hidden_size
        &&& p.hidden_dim >= 1
        &&& p.in_dim * p.hidden_dim <= usize::MAX
        &&& p.hidden_dim * p.out_dim <= usize::MAX
        &&& w.projection.fc1@.len() == p.in_dim * p.hidden_dim
        &&& w.projection.fc1_bias@.len() == p.hidden_dim
        &&& w.projection.fc2@.len() == p.hidden_dim * p.out_dim
        &&& w.projection.fc2_bias@.len() == p.out_dim
    }
}

pub proof fn mlp_has(
    x: Tensor,
    w1: Seq<Scalar>,
    b1: Seq<Scalar>,
    w2: Seq<Scalar>,
    b2: Seq<Scalar>,
    fan_in: int,
    hidden: int,
    fan_out: int,
    kind: MoondreamActivation,
    s: int,
)
    requires
        has(x, seq![1, s, fan_in]),
        fan_in >= 1,
        1 <= hidden <= usize::MAX,
        1 <= fan_out <= usize::MAX,
        fan_in * hidden <= usize::MAX,
        hidden * fan_out <= usize::MAX,
        w1.len() == fan_in * hidden,
        b1.len() == hidden,
        w2.len() == hidden * fan_out,
        b2.len() == fan_out,
    ensures
        has(mlp(x, w1, b1, w2, b2, fan_in, hidden, fan_out, kind), seq![1, s, fan_out]),
{
    broadcast use extents;

    assert(has(x.affine(w1, b1, fan_in, hidden), seq![1, s, hidden]));
}

pub proof fn blocks_have(
    cfg: &MoondreamVisionConfig,
    blocks: Seq<MoondreamVisionBlockWeights>,
    n: int,
    x: Tensor,
    s: int,
)
    requires
        cfg.addressable(),
        0 <= n <= blocks.len(),
        forall|i: int| 0 <= i < blocks.len() ==> (#[trigger] blocks[i]).sized(cfg),
        has(x, seq![1, s, cfg.embed_dim as int]),
    ensures
        has(blocks_value(cfg, blocks, n, x), seq![1, s, cfg.embed_dim as int]),
    decreases n,
{
    broadcast use extents;

    if n > 0 {
        blocks_have(cfg, blocks, n - 1, x, s);
        let y = blocks_value(cfg, blocks, n - 1, x);
        let w = &blocks[n - 1];
        let h = cfg.embed_dim as int;
        let heads = cfg.num_heads as int;
        let d = h / heads;
        let m = cfg.mlp_hidden as int;
        assert(h * h <= h * (3 * h) && m * h == h * m) by (nonlinear_arith)
            requires
                h >= 1,
        ;
        let qkv = y.layer_norm(w.norm1_gain@, w.norm1_bias@, h, cfg.layer_norm_eps).affine(
            w.qkv@,
            w.qkv_bias@,
            h,
            3 * h,
        );
        let q = qkv.narrow(2, 0, h).split_heads(heads, d);
        let k = qkv.narrow(2, h, h).split_heads(heads, d);
        let v = qkv.narrow(2, 2 * h, h).split_heads(heads, d);
        assert(q.dims =~= seq![1, heads, s, d]);
        assert(k.dims =~= seq![1, heads, s, d]);
        assert(v.dims =~= seq![1, heads, s, d]);
        full_attention_has(q, k, v, inv_sqrt64(d as usize), 1, heads, s, d);
        let ctx = full_attention(q, k, v, inv_sqrt64(d as usize));
        let h1 = y.add(ctx.merge_heads().affine(w.proj@, w.proj_bias@, h, h));
        assert(has(h1, seq![1, s, h]));
        mlp_has(
            h1.layer_norm(w.norm2_gain@, w.norm2_bias@, h, cfg.layer_norm_eps),
            w.fc1@,
            w.fc1_bias@,
            w.fc2@,
            w.fc2_bias@,
            h,
            m,
            h,
            cfg.activation,
            s,
        );
    }
}

/// An image cut into its patches.
pub proof fn patches_have(model: &MoondreamModel, image: Tensor)
    requires
        model.config.vision.addressable(),
        !image.bad(),
        model.accepts(image),
    ensures
        has(
            model.patches(image),
            seq![1, model.config.vision.num_patches as int, model.config.vision.patch_len()],
        ),
        model.config.vision.patch_len() >= 1,
{
    let cfg = &model.config.vision;
    let p = cfg.patch_size as int;
    let s = cfg.side();
    let c = cfg.num_channels as int;
    let n = cfg.image_size as int;
    assert(image.dims =~= seq![1, c, n, n]);
    assert(s >= 1) by (nonlinear_arith)
        requires
            s * p == n,
            n >= 1,
            p >= 1,
    ;
    products(1, c, n, n, 1, 1);
    products(1, c, s, p, s, p);
    products(1, s, s, c, p, p);
    products(1, s * s, c * p * p, 1, 1, 1);
    assert(1 * c * n * n == c * (n * n)) by (nonlinear_arith);
    assert(1 * c * s * p * s * p == c * (n * n) && 1 * s * s * c * p * p == c * (n * n) && 1 * (s * s) * (c
        * p * p) == c * (n * n)) by (nonlinear_arith)
        requires
            s * p == n,
    ;
    assert(c * p * p >= 1 && s * s >= 1) by (nonlinear_arith)
        requires
            c >= 1,
            p >= 1,
            s >= 1,
    ;
    reshape_has(image, seq![1, c, s, p, s, p]);
    let cut = image.reshape(seq![1, c, s, p, s, p]);
    permute_axes(cut, seq![0, 2, 4, 1, 3, 5]);
    let turned = cut.permute(seq![0, 2, 4, 1, 3, 5]);
    assert(turned.dims =~= seq![1, s, s, c, p, p]);
    reshape_has(turned, seq![1, s * s, c * p * p]);
}

/// On weights of the declared sizes a run over an image and text tokens
/// succeeds, and the logits are `(1, num_patches + seq, vocab_size)`.
pub proof fn forward_succeeds(model: &MoondreamModel, image: Tensor, tokens: Seq<u32>)
    requires
        model.addressable(tokens.len() as int),
        !image.bad(),
        model.accepts(image),
    ensures
        has(
            model.logits(image, tokens),
            seq![
                1,
                model.config.vision.num_patches + tokens.len(),
                model.config.text.vocab_size as int,
            ],
        ),
{
    broadcast use extents;

    let cfg = &model.config.vision;
    let w = &model.weights.vision;
    let n = cfg.num_patches as int;
    let e = cfg.embed_dim as int;
    let t = tokens.len() as int;
    let h = model.config.text.hidden_size as int;
    let vocab = model.config.text.vocab_size as int;
    patches_have(model, image);
    products(n, e, 1, 1, 1, 1);
    products(1, n, e, 1, 1, 1);
    assert(1 * n * e == n * e);
    constant_has(w.pos_embed@, seq![n, e]);
    let rows = Tensor::constant(w.pos_embed@, seq![n, e]);
    reshape_has(rows, seq![1, n, e]);
    broadcast_to_has(rows.reshape(seq![1, n, e]), seq![1, n, e]);
    let embedded = model.patches(image).affine(w.patch_embed@, w.patch_embed_bias@, cfg.patch_len(), e);
    assert(has(embedded, seq![1, n, e]));
    let x = embedded.add(rows.reshape(seq![1, n, e]).broadcast_to(seq![1, n, e]));
    blocks_have(cfg, w.blocks@, w.blocks@.len() as int, x, n);
    let v = model.vision(image);
    assert(has(v, seq![1, n, e]));
    let p = &model.config.projection;
    let pw = &model.weights.projection;
    mlp_has(
        v,
        pw.fc1@,
        pw.fc1_bias@,
        pw.fc2@,
        pw.fc2_bias@,
        p.in_dim as int,
        p.hidden_dim as int,
        p.out_dim as int,
        p.activation,
        n,
    );
    assert(vocab * h == h * vocab) by (nonlinear_arith);
    assert(t * h <= (n + t) * h && n + t <= (n + t) * h) by (nonlinear_arith)
        requires
            n >= 0,
            t >= 1,
            h >= 1,
    ;
    embed_has(model.weights.text.token_embedding@, vocab, h, tokens);
    let c = model.combined(image, tokens);
    assert(c.dims =~= seq![1, n + t, h]);
    embeds_run_succeeds(&model.decoder(), c, 0, n + t);
}

} // verus!
