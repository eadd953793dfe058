//! Marian: an encoder-decoder transformer for translation.
//!
//! - Encoder and decoder share the token embedding, which also serves as output
//!   projection, with a bias on the logits.
//! - Positions are sinusoidal: the sines of all frequencies, then the cosines.
//! - Every sublayer is followed by a normalisation of its sum with its input.
//! - The decoder attends to itself causally, then to the encoder output.

use crate::causality::{
    affine_agrees, begin_alike, causal_masks_look_back, embeddings_agree, heads_mix_alike,
    layer_norm_agrees, merge_agrees, split_agrees, sum_agrees,
};
use crate::common::{build_causal_mask, causal_data, causal_tensor, mask_has, tie_head, tied_head};
use crate::error::Error;
use crate::evaluation::{agrees, lawful, look_back, mixed_heads, regroups_front, same, At};
use crate::extents::{
    broadcast_add_under, broadcast_to_has, constant_has, embed_has, extents, has, lies_under,
    products, reshape_has,
};
use crate::lazy::{outcome, LazyTensor, Tensor, WeightStorage};
use crate::lazy_modernbert::mask_view;
use crate::scalar::{
    div32, mul32, one, pow32, pow64, sqrt64, unary, Data, Precision, Scalar, UnaryFn,
};
use std::sync::Arc;
use vstd::prelude::*;

verus! {

#[derive(Debug, Clone, Copy, PartialEq, Eq, Structural)]
pub enum MarianActivation {
    Relu,
    Silu,
    Gelu,
    GeluPytorchTanh,
}

#[derive(Debug, Clone, Copy, PartialEq, Eq, Structural)]
pub struct MarianConfig {
    pub vocab_size: usize,
    /// That of the encoder where absent.
    pub decoder_vocab_size: Option<usize>,
    pub max_position_embeddings: usize,
    pub d_model: usize,
    pub encoder_layers: usize,
    pub encoder_ffn_dim: usize,
    pub encoder_attention_heads: usize,
    pub decoder_layers: usize,
    pub decoder_ffn_dim: usize,
    pub decoder_attention_heads: usize,
    pub scale_embedding: bool,
    pub share_encoder_decoder_embeddings: bool,
    pub activation_function: MarianActivation,
}

impl MarianConfig {
    pub open spec fn target_vocab(&self) -> int {
        match self.decoder_vocab_size {
            Some(n) => n as int,
            None => self.vocab_size as int,
        }
    }

    /// The embeddings are shared, and the position table can be built.
    pub open spec fn positioned(&self) -> bool {
        &&& self.share_encoder_decoder_embeddings
        &&& self.d_model % 2 == 0
        &&& self.max_position_embeddings * self.d_model <= usize::MAX
    }

    /// The encoder heads share the model width evenly.
    pub open spec fn encodes(&self) -> bool {
        &&& self.positioned()
        &&& self.encoder_attention_heads > 0
        &&& self.d_model % self.encoder_attention_heads == 0
    }

    /// The decoder heads share the model width evenly.
    pub open spec fn decodes(&self) -> bool {
        &&& self.positioned()
        &&& self.decoder_attention_heads > 0
        &&& self.d_model % self.decoder_attention_heads == 0
    }

    /// Vocabulary of the decoder.
    pub fn target_vocab_size(&self) -> (r: usize)
        ensures
            r == self.target_vocab(),
    {
        match self.decoder_vocab_size {
            Some(n) => n,
            None => self.vocab_size,
        }
    }

    /// Width of an encoder head.
    pub fn encoder_head_dim(&self) -> (r: usize)
        requires
            self.encoder_attention_heads > 0,
        ensures
            r == self.d_model as int / self.encoder_attention_heads as int,
    {
        self.d_model / self.encoder_attention_heads
    }

    /// Width of a decoder head.
    pub fn decoder_head_dim(&self) -> (r: usize)
        requires
            self.decoder_attention_heads > 0,
        ensures
            r == self.d_model as int / self.decoder_attention_heads as int,
    {
        self.d_model / self.decoder_attention_heads
    }

    /// The `opus-mt-tc-big-fr-en` sizes.
    pub fn opus_mt_tc_big_fr_en() -> (r: Self)
        ensures
            r == (MarianConfig {
                vocab_size: 53017,
                decoder_vocab_size: Some(53017),
                max_position_embeddings: 1024,
                d_model: 1024,
                encoder_layers: 6,
                encoder_ffn_dim: 4096,
                encoder_attention_heads: 16,
                decoder_layers: 6,
                decoder_ffn_dim: 4096,
                decoder_attention_heads: 16,
                scale_embedding: true,
                share_encoder_decoder_embeddings: true,
                activation_function: MarianActivation::Relu,
            }),
            r.encodes(),
            r.decodes(),
    {
        MarianConfig {
            vocab_size: 53017,
            decoder_vocab_size: Some(53017),
            max_position_embeddings: 1024,
            d_model: 1024,
            encoder_layers: 6,
            encoder_ffn_dim: 4096,
            encoder_attention_heads: 16,
            decoder_layers: 6,
            decoder_ffn_dim: 4096,
            decoder_attention_heads: 16,
            scale_embedding: true,
            share_encoder_decoder_embeddings: true,
            activation_function: MarianActivation::Relu,
        }
    }
}

#[derive(Debug, Clone)]
pub struct MarianAttentionWeights {
    pub q_proj: WeightStorage,
    pub q_proj_bias: Data,
    pub k_proj: WeightStorage,
    pub k_proj_bias: Data,
    pub v_proj: WeightStorage,
    pub v_proj_bias: Data,
    pub out_proj: WeightStorage,
    pub out_proj_bias: Data,
}

#[derive(Debug, Clone)]
pub struct MarianEncoderLayerWeights {
    pub self_attn: MarianAttentionWeights,
    pub self_attn_ln_gain: Data,
    pub self_attn_ln_bias: Data,
    pub fc1: WeightStorage,
    pub fc1_bias: Data,
    pub fc2: WeightStorage,
    pub fc2_bias: Data,
    pub final_ln_gain: Data,
    pub final_ln_bias: Data,
}

#[derive(Debug, Clone)]
pub struct MarianDecoderLayerWeights {
    pub self_attn: MarianAttentionWeights,
    pub self_attn_ln_gain: Data,
    pub self_attn_ln_bias: Data,
    pub encoder_attn: MarianAttentionWeights,
    pub encoder_attn_ln_gain: Data,
    pub encoder_attn_ln_bias: Data,
    pub fc1: WeightStorage,
    pub fc1_bias: Data,
    pub fc2: WeightStorage,
    pub fc2_bias: Data,
    pub final_ln_gain: Data,
    pub final_ln_bias: Data,
}

#[derive(Debug, Clone)]
pub struct MarianWeights {
    pub shared_embedding: Data,
    pub encoder_layers: Vec<MarianEncoderLayerWeights>,
    pub decoder_layers: Vec<MarianDecoderLayerWeights>,
    /// `[target_vocab]`, added to the logits.
    pub final_logits_bias: Data,
}

#[derive(Debug, Clone)]
pub struct MarianModel {
    pub config: MarianConfig,
    pub weights: MarianWeights,
}

/// Frequency `i`: `10000^(-i / d_model)`.
pub open spec fn inverse_frequency(i: int, d_model: usize) -> Scalar {
    div32(
        one(),
        pow32(
            Scalar::F32(0x461C_4000),
            div32(
                Scalar::Nat(Precision::Single, i as usize),
                Scalar::Nat(Precision::Single, d_model),
            ),
        ),
    )
}

/// Feature `c` of position `t`: sines in the first half, cosines in the second.
pub open spec fn position_feature(t: int, c: int, d_model: usize) -> Scalar {
    let half = d_model as int / 2;
    let i = if c < half { c } else { c - half };
    unary(
        Precision::Single,
        if c < half {
            UnaryFn::Sin
        } else {
            UnaryFn::Cos
        },
        mul32(Scalar::Nat(Precision::Single, t as usize), inverse_frequency(i, d_model)),
    )
}

/// The position table; feature `c` of position `t` stands at `t * d_model + c`.
pub open spec fn position_table(max_positions: int, d_model: usize) -> Seq<Scalar> {
    let d = d_model as int;
    Seq::new((max_positions * d) as nat, |k: int| position_feature(k / d, k % d, d_model))
}

/// Feature `c` of position `t` of the table.
pub proof fn position_table_rows(max_positions: int, d_model: usize, t: int, c: int)
    requires
        0 <= t < max_positions,
        0 <= c < d_model,
    ensures
        0 <= t * d_model + c < position_table(max_positions, d_model).len(),
        position_table(max_positions, d_model)[t * d_model + c] == position_feature(t, c, d_model),
{
    let d = d_model as int;
    assert(0 <= t * d + c < max_positions * d) by (nonlinear_arith)
        requires
            0 <= t < max_positions,
            0 <= c < d,
    ;
    vstd::arithmetic::div_mod::lemma_fundamental_div_mod_converse(t * d + c, d, t, c);
}

/// Builds the position table `(max_positions, d_model)`.
pub fn build_sinusoidal_table(max_positions: usize, d_model: usize) -> (r: Vec<Scalar>)
    requires
        d_model % 2 == 0,
        max_positions * d_model <= usize::MAX,
    ensures
        r@ == position_table(max_positions as int, d_model),
{
    let half: usize = d_model / 2;
    let n: usize = max_positions * d_model;
    let mut out: Vec<Scalar> = Vec::new();
    let mut k: usize = 0;
    while k < n
        invariant
            k <= n == max_positions * d_model,
            half == d_model as int / 2,
            out@.len() == k,
            forall|m: int| 0 <= m < k ==> out@[m] == position_table(max_positions as int, d_model)[m],
        decreases n - k,
    {
        assert(d_model > 0) by (nonlinear_arith)
            requires
                max_positions * d_model > 0,
                d_model >= 0,
        ;
        let t: usize = k / d_model;
        let c: usize = k % d_model;
        let i: usize = if c < half { c } else { c - half };
        let x = Scalar::Nat(Precision::Single, i).div32(Scalar::Nat(Precision::Single, d_model));
        let inv_freq = Scalar::F32(0x3F80_0000).div32(Scalar::F32(0x461C_4000).pow32(x));
        let arg = Scalar::Nat(Precision::Single, t).mul32(inv_freq);
        out.push(
            arg.unary(
                Precision::Single,
                if c < half {
                    UnaryFn::Sin
                } else {
                    UnaryFn::Cos
                },
            ),
        );
        k = k + 1;
    }
    assert(out@ =~= position_table(max_positions as int, d_model));
    out
}

/// A matrix, then a bias.
pub open spec fn projected(x: Tensor, w: Seq<Scalar>, b: Seq<Scalar>, fan_in: int, fan_out: int) -> Tensor {
    x.linear(w, fan_in, fan_out).add_trailing_bias(b)
}

fn project(x: &LazyTensor, w: &WeightStorage, b: &Data, fan_in: usize, fan_out: usize) -> (r: LazyTensor)
    ensures
        r@ == projected(x@, w@, b@, fan_in as int, fan_out as int),
{
    w.apply_linear(x, fan_in, fan_out).add_trailing_bias(b)
}

/// The sum of a sublayer and its input, normed.
pub open spec fn post_norm(x: Tensor, sub: Tensor, gain: Seq<Scalar>, bias: Seq<Scalar>) -> Tensor {
    x.add(sub).layer_norm(gain, bias, gain.len() as int, Scalar::F64(0x3EE4_F8B5_88E3_68F1))
}

fn apply_post_norm(x: &LazyTensor, sub: &LazyTensor, gain: &Data, bias: &Data) -> (r: LazyTensor)
    ensures
        r@ == post_norm(x@, sub@, gain@, bias@),
{
    x.add(sub).layer_norm(gain, bias, gain.len(), &Scalar::F64(0x3EE4_F8B5_88E3_68F1))
}

/// Attention of `q_src` over `kv_src`; the queries are scaled by
/// `head_dim^-0.5`.
pub open spec fn attention_value(
    cfg: &MarianConfig,
    w: &MarianAttentionWeights,
    q_src: Tensor,
    kv_src: Tensor,
    heads: int,
    head_dim: usize,
    mask: Option<Tensor>,
) -> Tensor {
    let m = cfg.d_model as int;
    let d = head_dim as int;
    let scale = pow64(
        Scalar::Nat(Precision::Double, head_dim),
        Scalar::F64(0xBFE0_0000_0000_0000),
    );
    let q = projected(q_src, w.q_proj@, w.q_proj_bias@, m, m).mul_scalar(scale).split_heads(heads, d);
    let k = projected(kv_src, w.k_proj@, w.k_proj_bias@, m, m).split_heads(heads, d);
    let v = projected(kv_src, w.v_proj@, w.v_proj_bias@, m, m).split_heads(heads, d);
    let scores = q.matmul(k.transpose());
    let masked = match mask {
        None => scores,
        Some(t) => scores.broadcast_add(t),
    };
    projected(
        masked.softmax_last_dim().matmul(v).merge_heads(),
        w.out_proj@,
        w.out_proj_bias@,
        m,
        m,
    )
}

/// The feed-forward part.
pub open spec fn ffn_value(
    cfg: &MarianConfig,
    x: Tensor,
    w1: Seq<Scalar>,
    b1: Seq<Scalar>,
    w2: Seq<Scalar>,
    b2: Seq<Scalar>,
    inner: int,
) -> Tensor {
    let m = cfg.d_model as int;
    let up = projected(x, w1, b1, m, inner);
    let act = match cfg.activation_function {
        MarianActivation::Relu => up.relu(),
        MarianActivation::Silu => up.silu(),
        MarianActivation::Gelu => up.gelu_erf(),
        MarianActivation::GeluPytorchTanh => up.gelu(),
    };
    projected(act, w2, b2, inner, m)
}

/// One encoder layer.
pub open spec fn encoder_layer(cfg: &MarianConfig, w: &MarianEncoderLayerWeights, x: Tensor) -> Tensor {
    let heads = cfg.encoder_attention_heads;
    let h1 = post_norm(
        x,
        attention_value(cfg, &w.self_attn, x, x, heads as int, (cfg.d_model / heads) as usize, None),
        w.self_attn_ln_gain@,
        w.self_attn_ln_bias@,
    );
    post_norm(
        h1,
        ffn_value(
            cfg,
            h1,
            w.fc1@,
            w.fc1_bias@,
            w.fc2@,
            w.fc2_bias@,
            cfg.encoder_ffn_dim as int,
        ),
        w.final_ln_gain@,
        w.final_ln_bias@,
    )
}

/// One decoder layer.
pub open spec fn decoder_layer(
    cfg: &MarianConfig,
    w: &MarianDecoderLayerWeights,
    x: Tensor,
    enc: Tensor,
    mask: Tensor,
) -> Tensor {
    let heads = cfg.decoder_attention_heads;
    let d = (cfg.d_model / heads) as usize;
    let h1 = post_norm(
        x,
        attention_value(cfg, &w.self_attn, x, x, heads as int, d, Some(mask)),
        w.self_attn_ln_gain@,
        w.self_attn_ln_bias@,
    );
    let h2 = post_norm(
        h1,
        attention_value(cfg, &w.encoder_attn, h1, enc, heads as int, d, None),
        w.encoder_attn_ln_gain@,
        w.encoder_attn_ln_bias@,
    );
    post_norm(
        h2,
        ffn_value(
            cfg,
            h2,
            w.fc1@,
            w.fc1_bias@,
            w.fc2@,
            w.fc2_bias@,
            cfg.decoder_ffn_dim as int,
        ),
        w.final_ln_gain@,
        w.final_ln_bias@,
    )
}

/// The first `n` encoder layers.
pub open spec fn encoder_layers(
    cfg: &MarianConfig,
    layers: Seq<MarianEncoderLayerWeights>,
    n: int,
    x: Tensor,
) -> Tensor
    decreases n,
{
    if n <= 0 {
        x
    } else {
        encoder_layer(cfg, &layers[n - 1], encoder_layers(cfg, layers, n - 1, x))
    }
}

/// The first `n` decoder layers.
pub open spec fn decoder_layers(
    cfg: &MarianConfig,
    layers: Seq<MarianDecoderLayerWeights>,
    n: int,
    x: Tensor,
    enc: Tensor,
    mask: Tensor,
) -> Tensor
    decreases n,
{
    if n <= 0 {
        x
    } else {
        decoder_layer(cfg, &layers[n - 1], decoder_layers(cfg, layers, n - 1, x, enc, mask), enc, mask)
    }
}

impl MarianModel {
    /// Embeddings of the tokens, scaled where asked, with their positions.
    pub open spec fn embedded(&self, tokens: Seq<u32>) -> Tensor {
        let cfg = &self.config;
        let d = cfg.d_model as int;
        let n = tokens.len() as int;
        let e = Tensor::embed_tokens(self.weights.shared_embedding@, cfg.vocab_size as int, d, tokens);
        let x = if cfg.scale_embedding {
            e.mul_scalar(sqrt64(Scalar::Nat(Precision::Double, cfg.d_model)))
        } else {
            e
        };
        let pos = Tensor::constant(
            position_table(cfg.max_position_embeddings as int, cfg.d_model),
            seq![cfg.max_position_embeddings as int, d],
        ).narrow(0, 0, n).reshape(seq![1, n, d]).broadcast_to(seq![1, n, d]);
        x.add(pos)
    }

    /// The encoder output `(1, src_len, d_model)`.
    pub open spec fn encoded(&self, src: Seq<u32>) -> Tensor {
        encoder_layers(
            &self.config,
            self.weights.encoder_layers@,
            self.weights.encoder_layers@.len() as int,
            self.embedded(src),
        )
    }

    /// The logits `(1, tgt_len, target_vocab)` for an encoder output: the products
    /// with the rows of the embedding, and a bias.
    pub open spec fn decoded(&self, tgt: Seq<u32>, enc: Tensor) -> Tensor {
        let cfg = &self.config;
        decoder_layers(
            cfg,
            self.weights.decoder_layers@,
            self.weights.decoder_layers@.len() as int,
            self.embedded(tgt),
            enc,
            causal_tensor(tgt.len() as int),
        ).affine(
            tied_head(self.weights.shared_embedding@, cfg.target_vocab(), cfg.d_model as int),
            self.weights.final_logits_bias@,
            cfg.d_model as int,
            cfg.target_vocab(),
        )
    }

    /// The logits of a translation.
    pub open spec fn logits(&self, src: Seq<u32>, tgt: Seq<u32>) -> Tensor {
        let enc = self.encoded(src);
        if enc.bad() {
            enc
        } else {
            self.decoded(tgt, enc)
        }
    }

    /// Logits `(1, tgt_len, target_vocab)` of the target tokens, given the source
    /// tokens.
    pub fn forward(&self, src_tokens: &[u32], tgt_tokens: &[u32]) -> (r: Result<LazyTensor, Error>)
        requires
            self.config.encodes(),
            self.config.decodes(),
            src_tokens@.len() > 0,
            tgt_tokens@.len() > 0,
            tgt_tokens@.len() * tgt_tokens@.len() <= usize::MAX,
        ensures
            outcome(r, self.logits(src_tokens@, tgt_tokens@)),
    {
        let enc_out = self.encode(src_tokens);
        if let Some(e) = enc_out.failure() {
            return Err(e);
        }
        self.decode(tgt_tokens, &enc_out).finish()
    }

    /// The encoder output `(1, src_len, d_model)` alone.
    pub fn forward_encoder(&self, src_tokens: &[u32]) -> (r: Result<LazyTensor, Error>)
        requires
            self.config.encodes(),
            src_tokens@.len() > 0,
        ensures
            outcome(r, self.encoded(src_tokens@)),
    {
        self.encode(src_tokens).finish()
    }

    /// Logits `(1, tgt_len, target_vocab)` of the target tokens for a given
    /// encoder output.
    pub fn forward_decoder(&self, tgt_tokens: &[u32], enc_out: &LazyTensor) -> (r: Result<
        LazyTensor,
        Error,
    >)
        requires
            self.config.decodes(),
            tgt_tokens@.len() > 0,
            tgt_tokens@.len() * tgt_tokens@.len() <= usize::MAX,
        ensures
            outcome(r, self.decoded(tgt_tokens@, enc_out@)),
    {
        self.decode(tgt_tokens, enc_out).finish()
    }

    fn embed(&self, tokens: &[u32]) -> (r: LazyTensor)
        requires
            self.config.positioned(),
        ensures
            r@ == self.embedded(tokens@),
    {
        let cfg = &self.config;
        let d: usize = cfg.d_model;
        let n: usize = tokens.len();
        let e = LazyTensor::embed_tokens(&self.weights.shared_embedding, cfg.vocab_size, d, tokens);
        let x = if cfg.scale_embedding {
            e.mul_scalar(&Scalar::Nat(Precision::Double, d).sqrt64())
        } else {
            e
        };
        let table = Arc::new(build_sinusoidal_table(cfg.max_position_embeddings, d));
        let pos = LazyTensor::const2(&table, cfg.max_position_embeddings, d).narrow(
            0,
            0,
            n,
        ).reshape3(1, n, d).broadcast_to3(1, n, d);
        x.add(&pos)
    }

    fn encode(&self, src_tokens: &[u32]) -> (r: LazyTensor)
        requires
            self.config.encodes(),
        ensures
            r@ == self.encoded(src_tokens@),
    {
        let layers = &self.weights.encoder_layers;
        let mut x = self.embed(src_tokens);
        let ghost x0 = x@;
        let mut i: usize = 0;
        while i < layers.len()
            invariant
                self.config.encodes(),
                layers == &self.weights.encoder_layers,
                i <= layers@.len(),
                x@ == encoder_layers(&self.config, layers@, i as int, x0),
            decreases layers@.len() - i,
        {
            x = self.apply_encoder_layer(&x, &layers[i]);
            i = i + 1;
        }
        x
    }

    fn decode(&self, tgt_tokens: &[u32], enc_out: &LazyTensor) -> (r: LazyTensor)
        requires
            self.config.decodes(),
            tgt_tokens@.len() * tgt_tokens@.len() <= usize::MAX,
        ensures
            r@ == self.decoded(tgt_tokens@, enc_out@),
    {
        let cfg = &self.config;
        let layers = &self.weights.decoder_layers;
        let mut x = self.embed(tgt_tokens);
        let ghost x0 = x@;
        let mask = build_causal_mask(tgt_tokens.len());
        let mut i: usize = 0;
        while i < layers.len()
            invariant
                cfg == &self.config,
                cfg.decodes(),
                layers == &self.weights.decoder_layers,
                i <= layers@.len(),
                x@ == decoder_layers(cfg, layers@, i as int, x0, enc_out@, mask@),
            decreases layers@.len() - i,
        {
            x = self.apply_decoder_layer(&x, &layers[i], enc_out, &mask);
            i = i + 1;
        }
        let vocab: usize = cfg.target_vocab_size();
        let head = tie_head(&self.weights.shared_embedding, vocab, cfg.d_model);
        x.affine(&head, &self.weights.final_logits_bias, cfg.d_model, vocab)
    }

    fn apply_encoder_layer(&self, x: &LazyTensor, layer: &MarianEncoderLayerWeights) -> (r: LazyTensor)
        requires
            self.config.encodes(),
        ensures
            r@ == encoder_layer(&self.config, layer, x@),
    {
        let cfg = &self.config;
        let attn = self.attention(
            x,
            x,
            &layer.self_attn,
            cfg.encoder_attention_heads,
            cfg.encoder_head_dim(),
            None,
        );
        let h1 = apply_post_norm(x, &attn, &layer.self_attn_ln_gain, &layer.self_attn_ln_bias);
        let ffn = self.feed_forward(
            &h1,
            &layer.fc1,
            &layer.fc1_bias,
            &layer.fc2,
            &layer.fc2_bias,
            cfg.encoder_ffn_dim,
        );
        apply_post_norm(&h1, &ffn, &layer.final_ln_gain, &layer.final_ln_bias)
    }

    fn apply_decoder_layer(
        &self,
        x: &LazyTensor,
        layer: &MarianDecoderLayerWeights,
        enc_out: &LazyTensor,
        causal_mask: &LazyTensor,
    ) -> (r: LazyTensor)
        requires
            self.config.decodes(),
        ensures
            r@ == decoder_layer(&self.config, layer, x@, enc_out@, causal_mask@),
    {
        let cfg = &self.config;
        let heads: usize = cfg.decoder_attention_heads;
        let head_dim: usize = cfg.decoder_head_dim();
        let self_attn = self.attention(x, x, &layer.self_attn, heads, head_dim, Some(causal_mask));
        let h1 = apply_post_norm(x, &self_attn, &layer.self_attn_ln_gain, &layer.self_attn_ln_bias);
        let cross = self.attention(&h1, enc_out, &layer.encoder_attn, heads, head_dim, None);
        let h2 = apply_post_norm(
            &h1,
            &cross,
            &layer.encoder_attn_ln_gain,
            &layer.encoder_attn_ln_bias,
        );
        let ffn = self.feed_forward(
            &h2,
            &layer.fc1,
            &layer.fc1_bias,
            &layer.fc2,
            &layer.fc2_bias,
            cfg.decoder_ffn_dim,
        );
        apply_post_norm(&h2, &ffn, &layer.final_ln_gain, &layer.final_ln_bias)
    }

    fn attention(
        &self,
        q_src: &LazyTensor,
        kv_src: &LazyTensor,
        w: &MarianAttentionWeights,
        n_heads: usize,
        head_dim: usize,
        attn_mask: Option<&LazyTensor>,
    ) -> (r: LazyTensor)
        ensures
            r@ == attention_value(
                &self.config,
                w,
                q_src@,
                kv_src@,
                n_heads as int,
                head_dim,
                mask_view(attn_mask),
            ),
    {
        let d: usize = self.config.d_model;
        let scaling = Scalar::Nat(Precision::Double, head_dim).pow64(
            Scalar::F64(0xBFE0_0000_0000_0000),
        );
        let q = project(q_src, &w.q_proj, &w.q_proj_bias, d, d).mul_scalar(&scaling).split_heads(
            n_heads,
            head_dim,
        );
        let k = project(kv_src, &w.k_proj, &w.k_proj_bias, d, d).split_heads(n_heads, head_dim);
        let v = project(kv_src, &w.v_proj, &w.v_proj_bias, d, d).split_heads(n_heads, head_dim);
        let scores = q.matmul(&k.transpose());
        let masked = match attn_mask {
            None => scores,
            Some(mask) => scores.broadcast_add(mask),
        };
        let merged = masked.softmax_last_dim().matmul(&v).merge_heads();
        project(&merged, &w.out_proj, &w.out_proj_bias, d, d)
    }

    fn feed_forward(
        &self,
        x: &LazyTensor,
        fc1_w: &WeightStorage,
        fc1_b: &Data,
        fc2_w: &WeightStorage,
        fc2_b: &Data,
        ffn_dim: usize,
    ) -> (r: LazyTensor)
        ensures
            r@ == ffn_value(
                &self.config,
                x@,
                fc1_w@,
                fc1_b@,
                fc2_w@,
                fc2_b@,
                ffn_dim as int,
            ),
    {
        let cfg = &self.config;
        let fc1 = project(x, fc1_w, fc1_b, cfg.d_model, ffn_dim);
        let activated = match cfg.activation_function {
            MarianActivation::Relu => fc1.relu(),
            MarianActivation::Silu => fc1.silu(),
            MarianActivation::Gelu => fc1.gelu_erf(),
            MarianActivation::GeluPytorchTanh => fc1.gelu(),
        };
        project(&activated, fc2_w, fc2_b, ffn_dim, cfg.d_model)
    }
}

/// Decoding an encoder output that was computed beforehand gives what one run
/// over source and target gives.
pub proof fn decoder_matches_full_run(m: &MarianModel, src: Seq<u32>, tgt: Seq<u32>)
    requires
        !m.encoded(src).bad(),
    ensures
        m.decoded(tgt, m.encoded(src)) == m.logits(src, tgt),
{
}

impl MarianConfig {
    /// The heads share the model width, all sizes are positive, and for
    /// sequences of up to `seq` tokens every tensor can be addressed.
    pub open spec fn addressable(&self, seq: int) -> bool {
        let m = self.d_model as int;
        &&& self.encodes()
        &&& self.decodes()
        &&& m >= 1
        &&& self.encoder_ffn_dim >= 1
        &&& self.decoder_ffn_dim >= 1
        &&& self.vocab_size >= 1
        &&& 1 <= seq <= self.max_position_embeddings
        &&& seq * seq <= usize::MAX
        &&& m * m <= usize::MAX
        &&& m * self.encoder_ffn_dim <= usize::MAX
        &&& m * self.decoder_ffn_dim <= usize::MAX
        &&& self.vocab_size * m <= usize::MAX
    }
}

impl MarianAttentionWeights {
    /// Every weight has the size that the model width declares.
    pub open spec fn sized(&self, m: int) -> bool {
        &&& self.q_proj@.len() == m * m
        &&& self.q_proj_bias@.len() == m
        &&& self.k_proj@.len() == m * m
        &&& self.k_proj_bias@.len() == m
        &&& self.v_proj@.len() == m * m
        &&& self.v_proj_bias@.len() == m
        &&& self.out_proj@.len() == m * m
        &&& self.out_proj_bias@.len() == m
    }
}

impl MarianEncoderLayerWeights {
    /// Every weight has the size that the configuration declares.
    pub open spec fn sized(&self, cfg: &MarianConfig) -> bool {
        let m = cfg.d_model as int;
        &&& self.self_attn.sized(m)
        &&& self.self_attn_ln_gain@.len() == m
        &&& self.self_attn_ln_bias@.len() == m
        &&& self.fc1@.len() == m * cfg.encoder_ffn_dim
        &&& self.fc1_bias@.len() == cfg.encoder_ffn_dim
        &&& self.fc2@.len() == cfg.encoder_ffn_dim * m
        &&& self.fc2_bias@.len() == m
        &&& self.final_ln_gain@.len() == m
        &&& self.final_ln_bias@.len() == m
    }
}

impl MarianDecoderLayerWeights {
    /// Every weight has the size that the configuration declares.
    pub open spec fn sized(&self, cfg: &MarianConfig) -> bool {
        let m = cfg.d_model as int;
        &&& self.self_attn.sized(m)
        &&& self.self_attn_ln_gain@.len() == m
        &&& self.self_attn_ln_bias@.len() == m
        &&& self.encoder_attn.sized(m)
        &&& self.encoder_attn_ln_gain@.len() == m
        &&& self.encoder_attn_ln_bias@.len() == m
        &&& self.fc1@.len() == m * cfg.decoder_ffn_dim
        &&& self.fc1_bias@.len() == cfg.decoder_ffn_dim
        &&& self.fc2@.len() == cfg.decoder_ffn_dim * m
        &&& self.fc2_bias@.len() == m
        &&& self.final_ln_gain@.len() == m
        &&& self.final_ln_bias@.len() == m
    }
}

impl MarianWeights {
    /// Every weight has the size that the configuration declares; one table
    /// serves both languages.
    pub open spec fn sized(&self, cfg: &MarianConfig) -> bool {
        &&& cfg.target_vocab() == cfg.vocab_size
        &&& self.shared_embedding@.len() == cfg.vocab_size * cfg.d_model
        &&& forall|i: int|
            0 <= i < self.encoder_layers@.len() ==> (#[trigger] self.encoder_layers@[i]).sized(cfg)
        &&& forall|i: int|
            0 <= i < self.decoder_layers@.len() ==> (#[trigger] self.decoder_layers@[i]).sized(cfg)
        &&& self.final_logits_bias@.len() == cfg.vocab_size
    }
}

/// Attention has the extents of the queries.
proof fn attention_has(
    cfg: &MarianConfig,
    w: &MarianAttentionWeights,
    q_src: Tensor,
    kv_src: Tensor,
    heads: int,
    head_dim: usize,
    mask: Option<Tensor>,
    s: int,
    t: int,
)
    requires
        cfg.d_model >= 1,
        cfg.d_model * cfg.d_model <= usize::MAX,
        w.sized(cfg.d_model as int),
        heads >= 1,
        heads * head_dim == cfg.d_model,
        has(q_src, seq![1, s, cfg.d_model as int]),
        has(kv_src, seq![1, t, cfg.d_model as int]),
        mask matches Some(m) ==> s == t && has(m, seq![1, 1, s, s]),
    ensures
        has(
            attention_value(cfg, w, q_src, kv_src, heads, head_dim, mask),
            seq![1, s, cfg.d_model as int],
        ),
{
    broadcast use extents;

    let m = cfg.d_model as int;
    let d = head_dim as int;
    let scale = pow64(
        Scalar::Nat(Precision::Double, head_dim),
        Scalar::F64(0xBFE0_0000_0000_0000),
    );
    let q = projected(q_src, w.q_proj@, w.q_proj_bias@, m, m).mul_scalar(scale).split_heads(heads, d);
    let k = projected(kv_src, w.k_proj@, w.k_proj_bias@, m, m).split_heads(heads, d);
    let v = projected(kv_src, w.v_proj@, w.v_proj_bias@, m, m).split_heads(heads, d);
    let scores = q.matmul(k.transpose());
    assert(has(scores, seq![1, heads, s, t]));
    let masked = match mask {
        None => scores,
        Some(m) => scores.broadcast_add(m),
    };
    if let Some(m) = mask {
        assert(lies_under(m.dims, scores.dims));
        broadcast_add_under(scores, m);
    }
    assert(has(masked, seq![1, heads, s, t]));
    let merged = masked.softmax_last_dim().matmul(v).merge_heads();
    assert(has(merged, seq![1, s, m]));
}

proof fn ffn_has(
    cfg: &MarianConfig,
    x: Tensor,
    w1: Seq<Scalar>,
    b1: Seq<Scalar>,
    w2: Seq<Scalar>,
    b2: Seq<Scalar>,
    inner: int,
    s: int,
)
    requires
        cfg.d_model >= 1,
        1 <= inner <= usize::MAX,
        cfg.d_model * inner <= usize::MAX,
        w1.len() == cfg.d_model * inner,
        b1.len() == inner,
        w2.len() == inner * cfg.d_model,
        b2.len() == cfg.d_model,
        has(x, seq![1, s, cfg.d_model as int]),
    ensures
        has(ffn_value(cfg, x, w1, b1, w2, b2, inner), seq![1, s, cfg.d_model as int]),
{
    broadcast use extents;

    assert(inner * cfg.d_model == cfg.d_model * inner) by (nonlinear_arith);
    let up = projected(x, w1, b1, cfg.d_model as int, inner);
    assert(has(up, seq![1, s, inner]));
}

/// The heads fill the model width.
pub proof fn heads_fill(m: int, heads: int)
    requires
        m >= 0,
        heads > 0,
        m % heads == 0,
    ensures
        heads * (m / heads) == m,
{
    vstd::arithmetic::div_mod::lemma_fundamental_div_mod(m, heads);
}

pub proof fn encoder_layers_have(
    cfg: &MarianConfig,
    layers: Seq<MarianEncoderLayerWeights>,
    n: int,
    x: Tensor,
    s: int,
)
    requires
        cfg.addressable(s),
        0 <= n <= layers.len(),
        forall|i: int| 0 <= i < layers.len() ==> (#[trigger] layers[i]).sized(cfg),
        has(x, seq![1, s, cfg.d_model as int]),
    ensures
        has(encoder_layers(cfg, layers, n, x), seq![1, s, cfg.d_model as int]),
    decreases n,
{
    broadcast use extents;

    if n > 0 {
        encoder_layers_have(cfg, layers, n - 1, x, s);
        let y = encoder_layers(cfg, layers, n - 1, x);
        let w = &layers[n - 1];
        let m = cfg.d_model as int;
        let heads = cfg.encoder_attention_heads;
        let d = (cfg.d_model / heads) as usize;
        heads_fill(m, heads as int);
        attention_has(cfg, &w.self_attn, y, y, heads as int, d, None, s, s);
        let h1 = post_norm(
            y,
            attention_value(cfg, &w.self_attn, y, y, heads as int, d, None),
            w.self_attn_ln_gain@,
            w.self_attn_ln_bias@,
        );
        assert(has(h1, seq![1, s, m]));
        ffn_has(
            cfg,
            h1,
            w.fc1@,
            w.fc1_bias@,
            w.fc2@,
            w.fc2_bias@,
            cfg.encoder_ffn_dim as int,
            s,
        );
    }
}

pub proof fn decoder_layers_have(
    cfg: &MarianConfig,
    layers: Seq<MarianDecoderLayerWeights>,
    n: int,
    x: Tensor,
    enc: Tensor,
    mask: Tensor,
    s: int,
    t: int,
)
    requires
        cfg.addressable(s),
        0 <= n <= layers.len(),
        forall|i: int| 0 <= i < layers.len() ==> (#[trigger] layers[i]).sized(cfg),
        has(x, seq![1, s, cfg.d_model as int]),
        has(enc, seq![1, t, cfg.d_model as int]),
        has(mask, seq![1, 1, s, s]),
    ensures
        has(decoder_layers(cfg, layers, n, x, enc, mask), seq![1, s, cfg.d_model as int]),
    decreases n,
{
    broadcast use extents;

    if n > 0 {
        decoder_layers_have(cfg, layers, n - 1, x, enc, mask, s, t);
        let y = decoder_layers(cfg, layers, n - 1, x, enc, mask);
        let w = &layers[n - 1];
        let m = cfg.d_model as int;
        let heads = cfg.decoder_attention_heads;
        let d = (cfg.d_model / heads) as usize;
        heads_fill(m, heads as int);
        attention_has(cfg, &w.self_attn, y, y, heads as int, d, Some(mask), s, s);
        let h1 = post_norm(
            y,
            attention_value(cfg, &w.self_attn, y, y, heads as int, d, Some(mask)),
            w.self_attn_ln_gain@,
            w.self_attn_ln_bias@,
        );
        assert(has(h1, seq![1, s, m]));
        attention_has(cfg, &w.encoder_attn, h1, enc, heads as int, d, None, s, t);
        let h2 = post_norm(
            h1,
            attention_value(cfg, &w.encoder_attn, h1, enc, heads as int, d, None),
            w.encoder_attn_ln_gain@,
            w.encoder_attn_ln_bias@,
        );
        assert(has(h2, seq![1, s, m]));
        ffn_has(
            cfg,
            h2,
            w.fc1@,
            w.fc1_bias@,
            w.fc2@,
            w.fc2_bias@,
            cfg.decoder_ffn_dim as int,
            s,
        );
    }
}

proof fn embedded_has(model: &MarianModel, tokens: Seq<u32>)
    requires
        model.config.addressable(tokens.len() as int),
        model.weights.sized(&model.config),
    ensures
        has(
            model.embedded(tokens),
            seq![1, tokens.len() as int, model.config.d_model as int],
        ),
{
    broadcast use extents;

    let cfg = &model.config;
    let m = cfg.d_model as int;
    let p = cfg.max_position_embeddings as int;
    let s = tokens.len() as int;
    assert(s * m <= p * m) by (nonlinear_arith)
        requires
            0 <= s <= p,
            m >= 1,
    ;
    embed_has(model.weights.shared_embedding@, cfg.vocab_size as int, m, tokens);
    products(p, m, 1, 1, 1, 1);
    let table = position_table(p, cfg.d_model);
    assert(p * m >= 0) by (nonlinear_arith)
        requires
            p >= 0,
            m >= 0,
    ;
    constant_has(table, seq![p, m]);
    let rows = Tensor::constant(table, seq![p, m]).narrow(0, 0, s);
    assert(rows.dims =~= seq![s, m]);
    products(s, m, 1, 1, 1, 1);
    products(1, s, m, 1, 1, 1);
    assert(1 * s * m == s * m);
    reshape_has(rows, seq![1, s, m]);
    broadcast_to_has(rows.reshape(seq![1, s, m]), seq![1, s, m]);
}

/// On weights of the declared sizes encoding succeeds, and its output is
/// `(1, src_len, d_model)`.
pub proof fn encoder_succeeds(model: &MarianModel, src: Seq<u32>)
    requires
        model.config.addressable(src.len() as int),
        model.weights.sized(&model.config),
    ensures
        has(model.encoded(src), seq![1, src.len() as int, model.config.d_model as int]),
{
    embedded_has(model, src);
    encoder_layers_have(
        &model.config,
        model.weights.encoder_layers@,
        model.weights.encoder_layers@.len() as int,
        model.embedded(src),
        src.len() as int,
    );
}

/// On weights of the declared sizes decoding over an encoder output of any
/// length succeeds, and the logits are `(1, tgt_len, target_vocab)`.
pub proof fn decoder_succeeds(model: &MarianModel, tgt: Seq<u32>, enc: Tensor, src_len: int)
    requires
        model.config.addressable(tgt.len() as int),
        model.weights.sized(&model.config),
        has(enc, seq![1, src_len, model.config.d_model as int]),
    ensures
        has(
            model.decoded(tgt, enc),
            seq![1, tgt.len() as int, model.config.target_vocab()],
        ),
{
    broadcast use extents;

    let cfg = &model.config;
    let s = tgt.len() as int;
    let m = cfg.d_model as int;
    embedded_has(model, tgt);
    mask_has(causal_data(s), s, 1, cfg.decoder_attention_heads as int);
    decoder_layers_have(
        cfg,
        model.weights.decoder_layers@,
        model.weights.decoder_layers@.len() as int,
        model.embedded(tgt),
        enc,
        causal_tensor(s),
        s,
        src_len,
    );
    assert(m * cfg.vocab_size == cfg.vocab_size * m) by (nonlinear_arith);
}

/// On weights of the declared sizes a whole run succeeds, and the logits are
/// `(1, tgt_len, target_vocab)`.
pub proof fn forward_succeeds(model: &MarianModel, src: Seq<u32>, tgt: Seq<u32>)
    requires
        model.config.addressable(src.len() as int),
        model.config.addressable(tgt.len() as int),
        model.weights.sized(&model.config),
    ensures
        has(
            model.logits(src, tgt),
            seq![1, tgt.len() as int, model.config.target_vocab()],
        ),
{
    encoder_succeeds(model, src);
    decoder_succeeds(model, tgt, model.encoded(src), src.len() as int);
}

proof fn projected_agrees<V>(
    at: At<V>,
    x: Tensor,
    y: Tensor,
    w: Seq<Scalar>,
    b: Seq<Scalar>,
    i: int,
    o: int,
    s: int,
    t: int,
    m: int,
)
    requires
        lawful(at),
        has(x, seq![1, s, i]),
        has(y, seq![1, t, i]),
        i >= 1,
        1 <= o <= usize::MAX,
        i * o <= usize::MAX,
        w.len() == i * o,
        b.len() == o,
        agrees(at, x, y, 1, m),
    ensures
        has(projected(x, w, b, i, o), seq![1, s, o]),
        has(projected(y, w, b, i, o), seq![1, t, o]),
        agrees(at, projected(x, w, b, i, o), projected(y, w, b, i, o), 1, m),
{
    affine_agrees(at, x, y, w, b, i, o, s, t, m);
    assert(projected(x, w, b, i, o) == x.affine(w, b, i, o));
    assert(projected(y, w, b, i, o) == y.affine(w, b, i, o));
}

proof fn post_norm_agrees<V>(
    at: At<V>,
    x: Tensor,
    p: Tensor,
    y: Tensor,
    q: Tensor,
    gain: Seq<Scalar>,
    bias: Seq<Scalar>,
    d: int,
    s: int,
    t: int,
    m: int,
)
    requires
        lawful(at),
        has(x, seq![1, s, d]),
        has(p, seq![1, s, d]),
        has(y, seq![1, t, d]),
        has(q, seq![1, t, d]),
        1 <= d <= usize::MAX,
        gain.len() == d,
        bias.len() == d,
        agrees(at, x, y, 1, m),
        agrees(at, p, q, 1, m),
    ensures
        has(post_norm(x, p, gain, bias), seq![1, s, d]),
        has(post_norm(y, q, gain, bias), seq![1, t, d]),
        agrees(at, post_norm(x, p, gain, bias), post_norm(y, q, gain, bias), 1, m),
{
    broadcast use extents;

    sum_agrees(at, x, p, y, q, 1, m);
    layer_norm_agrees(
        at,
        x.add(p),
        y.add(q),
        gain,
        bias,
        d,
        Scalar::F64(0x3EE4_F8B5_88E3_68F1),
        s,
        t,
        m,
    );
}

/// Attention over the same keys and values, or over keys and values that agree
/// under a causal mask.
proof fn attention_agrees<V>(
    at: At<V>,
    cfg: &MarianConfig,
    w: &MarianAttentionWeights,
    x: Tensor,
    y: Tensor,
    over: Option<Tensor>,
    heads: int,
    head_dim: usize,
    s: int,
    t: int,
    n: int,
    m: int,
)
    requires
        lawful(at),
        cfg.d_model >= 1,
        cfg.d_model * cfg.d_model <= usize::MAX,
        w.sized(cfg.d_model as int),
        heads >= 1,
        heads * head_dim == cfg.d_model,
        has(x, seq![1, s, cfg.d_model as int]),
        has(y, seq![1, t, cfg.d_model as int]),
        over matches Some(e) ==> has(e, seq![1, n, cfg.d_model as int]),
        s >= 1,
        t >= 1,
        s * s <= usize::MAX,
        t * t <= usize::MAX,
        m <= s,
        m <= t,
        agrees(at, x, y, 1, m),
    ensures
        has(attended(cfg, w, x, over, heads, head_dim, s), seq![1, s, cfg.d_model as int]),
        has(attended(cfg, w, y, over, heads, head_dim, t), seq![1, t, cfg.d_model as int]),
        agrees(
            at,
            attended(cfg, w, x, over, heads, head_dim, s),
            attended(cfg, w, y, over, heads, head_dim, t),
            1,
            m,
        ),
{
    broadcast use extents;

    let md = cfg.d_model as int;
    let d = head_dim as int;
    let scale = pow64(
        Scalar::Nat(Precision::Double, head_dim),
        Scalar::F64(0xBFE0_0000_0000_0000),
    );
    mask_has(causal_data(s), s, 1, heads);
    mask_has(causal_data(t), t, 1, heads);
    let (ms, mt) = (causal_tensor(s), causal_tensor(t));
    projected_agrees(at, x, y, w.q_proj@, w.q_proj_bias@, md, md, s, t, m);
    let px = projected(x, w.q_proj@, w.q_proj_bias@, md, md);
    let py = projected(y, w.q_proj@, w.q_proj_bias@, md, md);
    assert forall|j: int| 0 <= j < m implies #[trigger] same(
        at,
        px.mul_scalar(scale),
        py.mul_scalar(scale),
        1,
        j,
    ) by {
        assert(same(at, px, py, 1, j));
    }
    split_agrees(at, px.mul_scalar(scale), py.mul_scalar(scale), heads, d, m);
    let qx = px.mul_scalar(scale).split_heads(heads, d);
    let qy = py.mul_scalar(scale).split_heads(heads, d);
    match over {
        Some(e) => {
            attention_has(cfg, w, x, e, heads, head_dim, None, s, n);
            attention_has(cfg, w, y, e, heads, head_dim, None, t, n);
            let k = projected(e, w.k_proj@, w.k_proj_bias@, md, md).split_heads(heads, d);
            let v = projected(e, w.v_proj@, w.v_proj_bias@, md, md).split_heads(heads, d);
            assert(has(k, seq![1, heads, n, d]) && has(v, seq![1, heads, n, d]));
            let kt = k.transpose();
            let cx = qx.matmul(kt).softmax_last_dim().matmul(v);
            let cy = qy.matmul(kt).softmax_last_dim().matmul(v);
            assert forall|j: int| 0 <= j < m implies #[trigger] same(at, cx, cy, 2, j) by {
                assert(same(at, qx, qy, 2, j));
                assert(same(at, qx.matmul(kt), qy.matmul(kt), 2, j));
                assert(same(
                    at,
                    qx.matmul(kt).softmax_last_dim(),
                    qy.matmul(kt).softmax_last_dim(),
                    2,
                    j,
                ));
            }
            merge_agrees(at, cx, cy, m);
            projected_agrees(
                at,
                cx.merge_heads(),
                cy.merge_heads(),
                w.out_proj@,
                w.out_proj_bias@,
                md,
                md,
                s,
                t,
                m,
            );
        },
        None => {
            attention_has(cfg, w, x, x, heads, head_dim, Some(ms), s, s);
            attention_has(cfg, w, y, y, heads, head_dim, Some(mt), t, t);
            projected_agrees(at, x, y, w.k_proj@, w.k_proj_bias@, md, md, s, t, m);
            projected_agrees(at, x, y, w.v_proj@, w.v_proj_bias@, md, md, s, t, m);
            let (kx, ky) = (
                projected(x, w.k_proj@, w.k_proj_bias@, md, md),
                projected(y, w.k_proj@, w.k_proj_bias@, md, md),
            );
            let (vx, vy) = (
                projected(x, w.v_proj@, w.v_proj_bias@, md, md),
                projected(y, w.v_proj@, w.v_proj_bias@, md, md),
            );
            split_agrees(at, kx, ky, heads, d, m);
            split_agrees(at, vx, vy, heads, d, m);
            let (kx, ky) = (kx.split_heads(heads, d), ky.split_heads(heads, d));
            let (vx, vy) = (vx.split_heads(heads, d), vy.split_heads(heads, d));
            assert forall|j: int| 0 <= j < m implies #[trigger] look_back(ms, mt, j) by {
                causal_masks_look_back(s, t, j);
            }
            broadcast_add_under(qx.matmul(kx.transpose()), ms);
            broadcast_add_under(qy.matmul(ky.transpose()), mt);
            heads_mix_alike(at, qx, kx, vx, ms, qy, ky, vy, mt, None, m);
            let (cx, cy) = (mixed_heads(qx, kx, vx, None, ms), mixed_heads(qy, ky, vy, None, mt));
            assert(has(cx, seq![1, heads, s, d]));
            assert(has(cy, seq![1, heads, t, d]));
            merge_agrees(at, cx, cy, m);
            projected_agrees(
                at,
                cx.merge_heads(),
                cy.merge_heads(),
                w.out_proj@,
                w.out_proj_bias@,
                md,
                md,
                s,
                t,
                m,
            );
        },
    }
}

/// Attention of the decoder: over an encoder output, or over the decoder's own
/// `n` positions under the causal mask.
pub open spec fn attended(
    cfg: &MarianConfig,
    w: &MarianAttentionWeights,
    x: Tensor,
    over: Option<Tensor>,
    heads: int,
    head_dim: usize,
    n: int,
) -> Tensor {
    match over {
        Some(e) => attention_value(cfg, w, x, e, heads, head_dim, None),
        None => attention_value(cfg, w, x, x, heads, head_dim, Some(causal_tensor(n))),
    }
}

proof fn ffn_agrees<V>(
    at: At<V>,
    cfg: &MarianConfig,
    x: Tensor,
    y: Tensor,
    w1: Seq<Scalar>,
    b1: Seq<Scalar>,
    w2: Seq<Scalar>,
    b2: Seq<Scalar>,
    inner: int,
    s: int,
    t: int,
    m: int,
)
    requires
        lawful(at),
        cfg.d_model >= 1,
        1 <= inner <= usize::MAX,
        cfg.d_model * inner <= usize::MAX,
        w1.len() == cfg.d_model * inner,
        b1.len() == inner,
        w2.len() == inner * cfg.d_model,
        b2.len() == cfg.d_model,
        has(x, seq![1, s, cfg.d_model as int]),
        has(y, seq![1, t, cfg.d_model as int]),
        agrees(at, x, y, 1, m),
    ensures
        has(ffn_value(cfg, x, w1, b1, w2, b2, inner), seq![1, s, cfg.d_model as int]),
        has(ffn_value(cfg, y, w1, b1, w2, b2, inner), seq![1, t, cfg.d_model as int]),
        agrees(
            at,
            ffn_value(cfg, x, w1, b1, w2, b2, inner),
            ffn_value(cfg, y, w1, b1, w2, b2, inner),
            1,
            m,
        ),
{
    broadcast use extents;

    let md = cfg.d_model as int;
    assert(inner * md == md * inner) by (nonlinear_arith);
    projected_agrees(at, x, y, w1, b1, md, inner, s, t, m);
    let (ux, uy) = (projected(x, w1, b1, md, inner), projected(y, w1, b1, md, inner));
    let (ax, ay) = match cfg.activation_function {
        MarianActivation::Relu => (ux.relu(), uy.relu()),
        MarianActivation::Silu => (ux.silu(), uy.silu()),
        MarianActivation::Gelu => (ux.gelu_erf(), uy.gelu_erf()),
        MarianActivation::GeluPytorchTanh => (ux.gelu(), uy.gelu()),
    };
    assert forall|j: int| 0 <= j < m implies #[trigger] same(at, ax, ay, 1, j) by {
        assert(same(at, ux, uy, 1, j));
    }
    projected_agrees(at, ax, ay, w2, b2, inner, md, s, t, m);
}

proof fn decoder_layers_agree<V>(
    at: At<V>,
    cfg: &MarianConfig,
    layers: Seq<MarianDecoderLayerWeights>,
    n: int,
    x: Tensor,
    y: Tensor,
    enc: Tensor,
    s: int,
    t: int,
    e: int,
    m: int,
)
    requires
        lawful(at),
        cfg.addressable(s),
        cfg.addressable(t),
        0 <= n <= layers.len(),
        forall|i: int| 0 <= i < layers.len() ==> (#[trigger] layers[i]).sized(cfg),
        has(x, seq![1, s, cfg.d_model as int]),
        has(y, seq![1, t, cfg.d_model as int]),
        has(enc, seq![1, e, cfg.d_model as int]),
        m <= s,
        m <= t,
        agrees(at, x, y, 1, m),
    ensures
        has(
            decoder_layers(cfg, layers, n, x, enc, causal_tensor(s)),
            seq![1, s, cfg.d_model as int],
        ),
        has(
            decoder_layers(cfg, layers, n, y, enc, causal_tensor(t)),
            seq![1, t, cfg.d_model as int],
        ),
        agrees(
            at,
            decoder_layers(cfg, layers, n, x, enc, causal_tensor(s)),
            decoder_layers(cfg, layers, n, y, enc, causal_tensor(t)),
            1,
            m,
        ),
    decreases n,
{
    if n > 0 {
        decoder_layers_agree(at, cfg, layers, n - 1, x, y, enc, s, t, e, m);
        let a = decoder_layers(cfg, layers, n - 1, x, enc, causal_tensor(s));
        let b = decoder_layers(cfg, layers, n - 1, y, enc, causal_tensor(t));
        let w = &layers[n - 1];
        let md = cfg.d_model as int;
        let heads = cfg.decoder_attention_heads;
        let d = (cfg.d_model / heads) as usize;
        let h = heads as int;
        heads_fill(md, h);
        attention_agrees(at, cfg, &w.self_attn, a, b, None, h, d, s, t, e, m);
        let (aa, ab) = (
            attended(cfg, &w.self_attn, a, None, h, d, s),
            attended(cfg, &w.self_attn, b, None, h, d, t),
        );
        post_norm_agrees(at, a, aa, b, ab, w.self_attn_ln_gain@, w.self_attn_ln_bias@, md, s, t, m);
        let a1 = post_norm(a, aa, w.self_attn_ln_gain@, w.self_attn_ln_bias@);
        let b1 = post_norm(b, ab, w.self_attn_ln_gain@, w.self_attn_ln_bias@);
        attention_agrees(at, cfg, &w.encoder_attn, a1, b1, Some(enc), h, d, s, t, e, m);
        let (ca, cb) = (
            attended(cfg, &w.encoder_attn, a1, Some(enc), h, d, s),
            attended(cfg, &w.encoder_attn, b1, Some(enc), h, d, t),
        );
        post_norm_agrees(
            at,
            a1,
            ca,
            b1,
            cb,
            w.encoder_attn_ln_gain@,
            w.encoder_attn_ln_bias@,
            md,
            s,
            t,
            m,
        );
        let a2 = post_norm(a1, ca, w.encoder_attn_ln_gain@, w.encoder_attn_ln_bias@);
        let b2 = post_norm(b1, cb, w.encoder_attn_ln_gain@, w.encoder_attn_ln_bias@);
        let inner = cfg.decoder_ffn_dim as int;
        ffn_agrees(at, cfg, a2, b2, w.fc1@, w.fc1_bias@, w.fc2@, w.fc2_bias@, inner, s, t, m);
        let fa = ffn_value(cfg, a2, w.fc1@, w.fc1_bias@, w.fc2@, w.fc2_bias@, inner);
        let fb = ffn_value(cfg, b2, w.fc1@, w.fc1_bias@, w.fc2@, w.fc2_bias@, inner);
        post_norm_agrees(at, a2, fa, b2, fb, w.final_ln_gain@, w.final_ln_bias@, md, s, t, m);
    }
}

proof fn embedded_agrees<V>(at: At<V>, model: &MarianModel, a: Seq<u32>, b: Seq<u32>, m: int)
    requires
        lawful(at),
        model.config.addressable(a.len() as int),
        model.config.addressable(b.len() as int),
        model.weights.sized(&model.config),
        begin_alike(a, b, m),
    ensures
        agrees(at, model.embedded(a), model.embedded(b), 1, m),
{
    let cfg = &model.config;
    let d = cfg.d_model as int;
    let p = cfg.max_position_embeddings as int;
    let (s, t) = (a.len() as int, b.len() as int);
    let v = cfg.vocab_size as int;
    let table = model.weights.shared_embedding@;
    assert(s * d <= p * d && t * d <= p * d) by (nonlinear_arith)
        requires
            0 <= s <= p,
            0 <= t <= p,
            d >= 1,
    ;
    embedded_parts(model, a);
    embedded_parts(model, b);
    embeddings_agree(at, table, v, d, a, b, m);
    let (ea, eb) = (Tensor::embed_tokens(table, v, d, a), Tensor::embed_tokens(table, v, d, b));
    let scale = sqrt64(Scalar::Nat(Precision::Double, cfg.d_model));
    let rows = Tensor::constant(position_table(p, cfg.d_model), seq![p, d]);
    let (ra, rb) = (rows.narrow(0, 0, s), rows.narrow(0, 0, t));
    let (da, db) = (seq![1, s, d], seq![1, t, d]);
    assert(regroups_front(ra.dims, rb.dims, da, db, 0, 1));
    assert(da.update(1, t) =~= db);
    let (qa, qb) = (ra.reshape(da), rb.reshape(db));
    assert forall|j: int| 0 <= j < m implies #[trigger] same(at, model.embedded(a), model.embedded(b), 1, j) by {
        assert(same(at, ea, eb, 1, j));
        assert(same(at, ea.mul_scalar(scale), eb.mul_scalar(scale), 1, j));
        assert(at(rows.narrow(0, 0, s), 0, j) == at(rows, 0, 0 + j));
        assert(at(rows.narrow(0, 0, t), 0, j) == at(rows, 0, 0 + j));
        assert(same(at, ra, rb, 0, j));
        assert(same(at, qa, qb, 1, j));
        assert(same(at, qa.broadcast_to(da), qb.broadcast_to(db), 1, j));
        if cfg.scale_embedding {
            assert(same(
                at,
                ea.mul_scalar(scale).add(qa.broadcast_to(da)),
                eb.mul_scalar(scale).add(qb.broadcast_to(db)),
                1,
                j,
            ));
        } else {
            assert(same(at, ea.add(qa.broadcast_to(da)), eb.add(qb.broadcast_to(db)), 1, j));
        }
    }
}

/// The steps of embedding succeed; the result is the rows of the position table.
pub proof fn embedded_parts(model: &MarianModel, tokens: Seq<u32>) -> (rows: Tensor)
    requires
        model.config.addressable(tokens.len() as int),
        model.weights.sized(&model.config),
    ensures
        ({
            let cfg = &model.config;
            let d = cfg.d_model as int;
            let p = cfg.max_position_embeddings as int;
            let s = tokens.len() as int;
            let e = Tensor::embed_tokens(
                model.weights.shared_embedding@,
                cfg.vocab_size as int,
                d,
                tokens,
            );
            &&& rows == Tensor::constant(position_table(p, cfg.d_model), seq![p, d]).narrow(0, 0, s)
            &&& has(rows, seq![s, d])
            &&& has(rows.reshape(seq![1, s, d]), seq![1, s, d])
            &&& has(rows.reshape(seq![1, s, d]).broadcast_to(seq![1, s, d]), seq![1, s, d])
            &&& has(e, seq![1, s, d])
            &&& has(model.embedded(tokens), seq![1, s, d])
        }),
{
    broadcast use extents;

    let cfg = &model.config;
    let m = cfg.d_model as int;
    let p = cfg.max_position_embeddings as int;
    let s = tokens.len() as int;
    embedded_has(model, tokens);
    assert(s * m <= p * m && p * m >= 0) by (nonlinear_arith)
        requires
            0 <= s <= p,
            m >= 1,
    ;
    embed_has(model.weights.shared_embedding@, cfg.vocab_size as int, m, tokens);
    products(p, m, 1, 1, 1, 1);
    let table = position_table(p, cfg.d_model);
    constant_has(table, seq![p, m]);
    let rows = Tensor::constant(table, seq![p, m]).narrow(0, 0, s);
    assert(rows.dims =~= seq![s, m]);
    products(s, m, 1, 1, 1, 1);
    products(1, s, m, 1, 1, 1);
    assert(1 * s * m == s * m);
    reshape_has(rows, seq![1, s, m]);
    broadcast_to_has(rows.reshape(seq![1, s, m]), seq![1, s, m]);
    rows
}

/// The logits of a target position depend on the target tokens up to it: targets
/// that begin alike have logits that begin alike, whatever follows.
pub proof fn decoder_is_causal<V>(
    at: At<V>,
    model: &MarianModel,
    a: Seq<u32>,
    b: Seq<u32>,
    enc: Tensor,
    src_len: int,
    m: int,
)
    requires
        lawful(at),
        model.config.addressable(a.len() as int),
        model.config.addressable(b.len() as int),
        model.weights.sized(&model.config),
        has(enc, seq![1, src_len, model.config.d_model as int]),
        begin_alike(a, b, m),
    ensures
        agrees(at, model.decoded(a, enc), model.decoded(b, enc), 1, m),
{
    let cfg = &model.config;
    let d = cfg.d_model as int;
    let (s, t) = (a.len() as int, b.len() as int);
    let layers = model.weights.decoder_layers@;
    let n = layers.len() as int;
    embedded_has(model, a);
    embedded_has(model, b);
    embedded_agrees(at, model, a, b, m);
    decoder_layers_agree(
        at,
        cfg,
        layers,
        n,
        model.embedded(a),
        model.embedded(b),
        enc,
        s,
        t,
        src_len,
        m,
    );
    assert(d * cfg.vocab_size == cfg.vocab_size * d) by (nonlinear_arith);
    affine_agrees(
        at,
        decoder_layers(cfg, layers, n, model.embedded(a), enc, causal_tensor(s)),
        decoder_layers(cfg, layers, n, model.embedded(b), enc, causal_tensor(t)),
        tied_head(model.weights.shared_embedding@, cfg.target_vocab(), d),
        model.weights.final_logits_bias@,
        d,
        cfg.target_vocab(),
        s,
        t,
        m,
    );
}

} // verus!
