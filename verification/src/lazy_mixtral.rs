//! Mixtral: a causal decoder whose feed-forward part is a mixture of experts.
//!
//! Every expert is evaluated on every token, and the results are summed with
//! the softmax of the router as weights.

use crate::causality::{
    begin_alike, embeddings_agree, rms_norm_agrees, rows_map_alike, shared_attention,
    shared_attention_agrees, sum_agrees, swiglu_agrees,
};
use crate::checkpoint::{decimal, join, loaded_matrix, numbered, Checkpoint, Loader};
use crate::common::{
    agree, attend_masked, feed_swiglu, heads_are_shared, mask_has, masked_attention,
    masked_attention_has, swiglu, swiglu_has,
};
use crate::error::{Error, Fault, LoadError};
use crate::evaluation::{agrees, inside, lawful, look_back, same, At, Element};
use crate::extents::{broadcast_to_has, embed_has, extents, has, lies_under};
use crate::lazy::{outcome, LazyTensor, Tensor, WeightStorage};
use crate::lazy_mistral::{build_window_mask, window_data, window_mask, window_masks_look_back};
use crate::scalar::{inv_sqrt64, Data, Scalar};
use vstd::prelude::*;

verus! {

#[derive(Debug, Clone)]
pub struct MixtralConfig {
    pub vocab_size: usize,
    pub hidden_size: usize,
    pub intermediate_size: usize,
    pub num_hidden_layers: usize,
    pub num_attention_heads: usize,
    pub num_key_value_heads: usize,
    pub head_dim: usize,
    pub max_position_embeddings: usize,
    pub rms_norm_eps: Scalar,
    pub rope_theta: Scalar,
    pub sliding_window: Option<usize>,
    pub num_experts_per_tok: usize,
    pub num_local_experts: usize,
}

impl MixtralConfig {
    /// Width of the queries.
    pub open spec fn q(&self) -> int {
        self.num_attention_heads * self.head_dim
    }

    /// Width of the keys, and of the values.
    pub open spec fn kv(&self) -> int {
        self.num_key_value_heads * self.head_dim
    }

    /// There are key heads, and the widths can be counted.
    pub open spec fn countable(&self) -> bool {
        &&& self.num_key_value_heads > 0
        &&& self.q() <= usize::MAX
        &&& self.kv() <= usize::MAX
    }

    /// The stored tensors can be counted.
    pub open spec fn loadable(&self) -> bool {
        let h = self.hidden_size;
        &&& self.q() <= usize::MAX
        &&& self.kv() <= usize::MAX
        &&& self.q() * h <= usize::MAX
        &&& h * self.q() <= usize::MAX
        &&& self.kv() * h <= usize::MAX
        &&& self.intermediate_size * h <= usize::MAX
        &&& h * self.intermediate_size <= usize::MAX
        &&& self.vocab_size * h <= usize::MAX
        &&& self.num_local_experts * h <= usize::MAX
    }

    /// The `Mixtral-8x7B-v0.1` sizes.
    pub fn mixtral_8x7b_v01() -> (r: Self)
        ensures
            r == (MixtralConfig {
                vocab_size: 32_000,
                hidden_size: 4096,
                intermediate_size: 14_336,
                num_hidden_layers: 32,
                num_attention_heads: 32,
                num_key_value_heads: 8,
                head_dim: 128,
                max_position_embeddings: 32_768,
                rms_norm_eps: Scalar::F64(0x3EE4_F8B5_88E3_68F1),
                rope_theta: Scalar::F64(0x412E_8480_0000_0000),
                sliding_window: Some(4096),
                num_experts_per_tok: 2,
                num_local_experts: 8,
            }),
            r.countable(),
            r.loadable(),
    {
        MixtralConfig {
            vocab_size: 32_000,
            hidden_size: 4096,
            intermediate_size: 14_336,
            num_hidden_layers: 32,
            num_attention_heads: 32,
            num_key_value_heads: 8,
            head_dim: 128,
            max_position_embeddings: 32_768,
            rms_norm_eps: Scalar::F64(0x3EE4_F8B5_88E3_68F1),
            rope_theta: Scalar::F64(0x412E_8480_0000_0000),
            sliding_window: Some(4096),
            num_experts_per_tok: 2,
            num_local_experts: 8,
        }
    }
}

/// The gated feed-forward part of one expert.
#[derive(Debug, Clone)]
pub struct MixtralExpertWeights {
    pub gate_w: WeightStorage,
    pub up_w: WeightStorage,
    pub down_w: WeightStorage,
}

#[derive(Debug, Clone)]
pub struct MixtralLayerWeights {
    pub attn_norm_gain: Data,
    pub ffn_norm_gain: Data,
    pub attn_q: WeightStorage,
    pub attn_k: WeightStorage,
    pub attn_v: WeightStorage,
    pub attn_o: WeightStorage,
    /// Router, `[hidden_size, num_experts]`.
    pub gate_w: Data,
    pub experts: Vec<MixtralExpertWeights>,
}

#[derive(Debug, Clone)]
pub struct MixtralWeights {
    pub token_embedding: Data,
    pub layers: Vec<MixtralLayerWeights>,
    pub final_norm_gain: Data,
    pub output: WeightStorage,
}

#[derive(Debug, Clone)]
pub struct MixtralModel {
    pub config: MixtralConfig,
    pub weights: MixtralWeights,
}

/// What expert `i` contributes: its output, weighed by column `i` of the router.
pub open spec fn expert_value(
    cfg: &MixtralConfig,
    w: &MixtralExpertWeights,
    x: Tensor,
    router: Tensor,
    i: int,
    batch: int,
    seq: int,
) -> Tensor {
    let h = cfg.hidden_size as int;
    swiglu(x, w.gate_w@, w.up_w@, w.down_w@, h, cfg.intermediate_size as int).mul(
        router.narrow(2, i, 1).broadcast_to(seq![batch, seq, h]),
    )
}

/// The sum of the first `n` experts.
pub open spec fn experts_value(
    cfg: &MixtralConfig,
    experts: Seq<MixtralExpertWeights>,
    n: int,
    x: Tensor,
    router: Tensor,
    batch: int,
    seq: int,
) -> Tensor
    decreases n,
{
    if n <= 1 {
        expert_value(cfg, &experts[0], x, router, 0, batch, seq)
    } else {
        experts_value(cfg, experts, n - 1, x, router, batch, seq).add(
            expert_value(cfg, &experts[n - 1], x, router, n - 1, batch, seq),
        )
    }
}

/// The mixture of experts on `x (batch, seq, hidden_size)`.
pub open spec fn moe_value(
    cfg: &MixtralConfig,
    w: &MixtralLayerWeights,
    x: Tensor,
    batch: int,
    seq: int,
) -> Tensor {
    let router = x.linear(
        w.gate_w@,
        cfg.hidden_size as int,
        cfg.num_local_experts as int,
    ).softmax_last_dim();
    experts_value(cfg, w.experts@, w.experts@.len() as int, x, router, batch, seq)
}

/// One decoder layer.
pub open spec fn layer_value(
    cfg: &MixtralConfig,
    w: &MixtralLayerWeights,
    x: Tensor,
    cos: Tensor,
    sin: Tensor,
    mask: Tensor,
) -> Tensor {
    let h = cfg.hidden_size as int;
    let heads = cfg.num_attention_heads as int;
    let kvh = cfg.num_key_value_heads as int;
    let d = cfg.head_dim as int;
    let rep = heads / kvh;
    let n = x.rms_norm(w.attn_norm_gain@, w.attn_norm_gain@.len() as int, cfg.rms_norm_eps);
    let q = n.linear(w.attn_q@, h, h).split_heads(heads, d).rope_with_tables(cos, sin);
    let k = n.linear(w.attn_k@, h, cfg.kv()).split_heads(kvh, d).rope_with_tables(cos, sin);
    let v = n.linear(w.attn_v@, h, cfg.kv()).split_heads(kvh, d);
    let ctx = masked_attention(
        q,
        k.repeat_interleave(1, rep),
        v.repeat_interleave(1, rep),
        inv_sqrt64(cfg.head_dim),
        mask,
    );
    let h1 = x.add(ctx.merge_heads().linear(w.attn_o@, h, h));
    h1.add(
        moe_value(
            cfg,
            w,
            h1.rms_norm(w.ffn_norm_gain@, w.ffn_norm_gain@.len() as int, cfg.rms_norm_eps),
            x.dim(0),
            x.dim(1),
        ),
    )
}

/// The first `n` layers, one after the other.
pub open spec fn layers_value(
    cfg: &MixtralConfig,
    layers: Seq<MixtralLayerWeights>,
    n: int,
    x: Tensor,
    cos: Tensor,
    sin: Tensor,
    mask: Tensor,
) -> Tensor
    decreases n,
{
    if n <= 0 {
        x
    } else {
        layer_value(
            cfg,
            &layers[n - 1],
            layers_value(cfg, layers, n - 1, x, cos, sin, mask),
            cos,
            sin,
            mask,
        )
    }
}

/// Every layer has experts.
pub open spec fn has_experts(layers: Seq<MixtralLayerWeights>) -> bool {
    forall|i: int| 0 <= i < layers.len() ==> (#[trigger] layers[i]).experts@.len() > 0
}

impl MixtralModel {
    /// Embeddings `(1, seq, hidden_size)` of the tokens.
    pub open spec fn embedded(&self, tokens: Seq<u32>) -> Tensor {
        Tensor::embed_tokens(
            self.weights.token_embedding@,
            self.config.vocab_size as int,
            self.config.hidden_size as int,
            tokens,
        )
    }

    /// The embeddings, unless the model cannot take them.
    pub open spec fn admitted(&self, embeds: Tensor) -> Tensor {
        let cfg = &self.config;
        if embeds.rank() != 3 || embeds.dim(0) != 1 || embeds.dim(2) != cfg.hidden_size {
            Tensor::invalid(Error::InputShape)
        } else if embeds.dim(1) == 0 {
            Tensor::invalid(Error::EmptySequence)
        } else if cfg.q() != cfg.hidden_size {
            Tensor::invalid(Error::HeadWidth)
        } else if cfg.num_attention_heads % cfg.num_key_value_heads != 0 {
            Tensor::invalid(Error::KeyHeads)
        } else {
            embeds
        }
    }

    /// Final hidden states of the embeddings.
    pub open spec fn hidden(&self, embeds: Tensor, start: int) -> Tensor {
        let cfg = &self.config;
        let w = &self.weights;
        let seq = embeds.dim(1);
        if embeds.bad() {
            embeds
        } else if self.admitted(embeds).bad() {
            self.admitted(embeds)
        } else {
            layers_value(
                cfg,
                w.layers@,
                w.layers@.len() as int,
                embeds,
                Tensor::rope_cos(cfg.rope_theta, start, seq, cfg.head_dim as int),
                Tensor::rope_sin(cfg.rope_theta, start, seq, cfg.head_dim as int),
                window_mask(cfg.sliding_window, seq),
            ).rms_norm(w.final_norm_gain@, w.final_norm_gain@.len() as int, cfg.rms_norm_eps)
        }
    }

    /// Logits of the embeddings.
    pub open spec fn logits(&self, embeds: Tensor, start: int) -> Tensor {
        self.hidden(embeds, start).linear(
            self.weights.output@,
            self.config.hidden_size as int,
            self.config.vocab_size as int,
        )
    }

    /// What every run asks of the model and of the sequence length.
    pub open spec fn runnable(&self, seq: int) -> bool {
        &&& self.config.countable()
        &&& has_experts(self.weights.layers@)
        &&& seq * seq <= usize::MAX
    }

    /// Logits `(1, seq, vocab_size)` of the tokens.
    pub fn forward(&self, tokens: &[u32], start_pos: usize) -> (r: Result<LazyTensor, Error>)
        requires
            self.runnable(tokens@.len() as int),
            tokens@.len() > 0,
        ensures
            outcome(r, self.logits(self.embedded(tokens@), start_pos as int)),
    {
        proof {
            self.embedded_length(tokens@);
        }
        let h = self.run_backbone_embeds(&self.embed(tokens), start_pos);
        self.apply_lm_head(&h).finish()
    }

    /// Final hidden states `(1, seq, hidden_size)` of the tokens.
    pub fn forward_hidden(&self, tokens: &[u32], start_pos: usize) -> (r: Result<LazyTensor, Error>)
        requires
            self.runnable(tokens@.len() as int),
            tokens@.len() > 0,
        ensures
            outcome(r, self.hidden(self.embedded(tokens@), start_pos as int)),
    {
        proof {
            self.embedded_length(tokens@);
        }
        self.run_backbone_embeds(&self.embed(tokens), start_pos).finish()
    }

    /// Logits of embeddings `(1, seq, hidden_size)`.
    pub fn forward_embeds(&self, embeds: &LazyTensor, start_pos: usize) -> (r: Result<
        LazyTensor,
        Error,
    >)
        requires
            self.runnable(embeds@.dim(1)),
        ensures
            outcome(r, self.logits(embeds@, start_pos as int)),
    {
        let h = self.run_backbone_embeds(embeds, start_pos);
        self.apply_lm_head(&h).finish()
    }

    /// Final hidden states of embeddings `(1, seq, hidden_size)`.
    pub fn forward_hidden_embeds(&self, embeds: &LazyTensor, start_pos: usize) -> (r: Result<
        LazyTensor,
        Error,
    >)
        requires
            self.runnable(embeds@.dim(1)),
        ensures
            outcome(r, self.hidden(embeds@, start_pos as int)),
    {
        self.run_backbone_embeds(embeds, start_pos).finish()
    }

    /// Embeddings `(1, seq, hidden_size)` of the tokens, to be used together with
    /// `anchor`.
    pub fn embed_tokens_anchored(&self, anchor: &LazyTensor, tokens: &[u32]) -> (r: Result<LazyTensor, Error>)
        ensures
            outcome(r, self.embedded(tokens@)),
    {
        self.embed(tokens).finish()
    }

    fn embed(&self, tokens: &[u32]) -> (r: LazyTensor)
        ensures
            r@ == self.embedded(tokens@),
    {
        LazyTensor::embed_tokens(
            &self.weights.token_embedding,
            self.config.vocab_size,
            self.config.hidden_size,
            tokens,
        )
    }

    /// The embeddings have one position for each token, or none where they could
    /// not be built.
    proof fn embedded_length(&self, tokens: Seq<u32>)
        ensures
            self.embedded(tokens).dim(1) == tokens.len() || self.embedded(tokens).dim(1) == 0,
    {
        crate::common::embedding_extents(
            self.weights.token_embedding@,
            self.config.vocab_size as int,
            self.config.hidden_size as int,
            tokens,
        );
    }

    fn apply_lm_head(&self, h_norm: &LazyTensor) -> (r: LazyTensor)
        ensures
            r@ == h_norm@.linear(
                self.weights.output@,
                self.config.hidden_size as int,
                self.config.vocab_size as int,
            ),
    {
        self.weights.output.apply_linear(h_norm, self.config.hidden_size, self.config.vocab_size)
    }

    fn run_backbone_embeds(&self, embeds: &LazyTensor, start_pos: usize) -> (r: LazyTensor)
        requires
            self.runnable(embeds@.dim(1)),
        ensures
            r@ == self.hidden(embeds@, start_pos as int),
    {
        let cfg = &self.config;
        let weights = &self.weights;
        if embeds.failure().is_some() {
            return embeds.clone();
        }
        if embeds.rank() != 3 || embeds.dim(0) != 1 || embeds.dim(2) != cfg.hidden_size {
            return LazyTensor::invalid(Error::InputShape);
        }
        let seq: usize = embeds.dim(1);
        if seq == 0 {
            return LazyTensor::invalid(Error::EmptySequence);
        }
        if cfg.num_attention_heads * cfg.head_dim != cfg.hidden_size {
            return LazyTensor::invalid(Error::HeadWidth);
        }
        if cfg.num_attention_heads % cfg.num_key_value_heads != 0 {
            return LazyTensor::invalid(Error::KeyHeads);
        }
        let mut h = embeds.clone();
        let (rope_cos, rope_sin) = LazyTensor::rope_tables(
            &cfg.rope_theta,
            start_pos,
            seq,
            cfg.head_dim,
        );
        let mask = build_window_mask(cfg.sliding_window, seq);
        let mut i: usize = 0;
        while i < weights.layers.len()
            invariant
                cfg == &self.config,
                weights == &self.weights,
                cfg.countable(),
                has_experts(weights.layers@),
                i <= weights.layers@.len(),
                h@ == layers_value(
                    cfg,
                    weights.layers@,
                    i as int,
                    embeds@,
                    rope_cos@,
                    rope_sin@,
                    mask@,
                ),
            decreases weights.layers@.len() - i,
        {
            h = self.apply_layer(&h, &weights.layers[i], &rope_cos, &rope_sin, &mask);
            i = i + 1;
        }
        h.rms_norm(&weights.final_norm_gain, weights.final_norm_gain.len(), &cfg.rms_norm_eps)
    }

    fn apply_layer(
        &self,
        x: &LazyTensor,
        layer: &MixtralLayerWeights,
        rope_cos: &LazyTensor,
        rope_sin: &LazyTensor,
        mask: &LazyTensor,
    ) -> (r: LazyTensor)
        requires
            self.config.countable(),
            layer.experts@.len() > 0,
        ensures
            r@ == layer_value(&self.config, layer, x@, rope_cos@, rope_sin@, mask@),
    {
        let cfg = &self.config;
        let h: usize = cfg.hidden_size;
        let kv_dim: usize = cfg.num_key_value_heads * cfg.head_dim;
        let x_norm = x.rms_norm(&layer.attn_norm_gain, layer.attn_norm_gain.len(), &cfg.rms_norm_eps);
        let q = layer.attn_q.apply_linear(&x_norm, h, h).split_heads(
            cfg.num_attention_heads,
            cfg.head_dim,
        ).rope_with_tables(rope_cos, rope_sin);
        let k = layer.attn_k.apply_linear(&x_norm, h, kv_dim).split_heads(
            cfg.num_key_value_heads,
            cfg.head_dim,
        ).rope_with_tables(rope_cos, rope_sin);
        let v = layer.attn_v.apply_linear(&x_norm, h, kv_dim).split_heads(
            cfg.num_key_value_heads,
            cfg.head_dim,
        );
        let n_rep: usize = cfg.num_attention_heads / cfg.num_key_value_heads;
        let k_full = k.repeat_interleave(1, n_rep);
        let v_full = v.repeat_interleave(1, n_rep);
        let attn_v = attend_masked(&q, &k_full, &v_full, &Scalar::inv_sqrt64(cfg.head_dim), mask);
        let h1 = x.add(&layer.attn_o.apply_linear(&attn_v.merge_heads(), h, h));
        let h1_norm = h1.rms_norm(&layer.ffn_norm_gain, layer.ffn_norm_gain.len(), &cfg.rms_norm_eps);
        h1.add(&self.apply_moe(&h1_norm, layer, x.dim(0), x.dim(1)))
    }

    fn apply_expert(
        &self,
        x: &LazyTensor,
        ew: &MixtralExpertWeights,
        router: &LazyTensor,
        ei: usize,
        batch: usize,
        seq: usize,
    ) -> (r: LazyTensor)
        ensures
            r@ == expert_value(
                &self.config,
                ew,
                x@,
                router@,
                ei as int,
                batch as int,
                seq as int,
            ),
    {
        let h: usize = self.config.hidden_size;
        let expert_out = feed_swiglu(
            x,
            &ew.gate_w,
            &ew.up_w,
            &ew.down_w,
            h,
            self.config.intermediate_size,
        );
        expert_out.mul(&router.narrow(2, ei, 1).broadcast_to3(batch, seq, h))
    }

    /// The mixture of experts: every expert on every position, weighed by the
    /// softmax of the router's scores.
    pub fn apply_moe(&self, x: &LazyTensor, layer: &MixtralLayerWeights, batch: usize, seq: usize) -> (r:
        LazyTensor)
        requires
            layer.experts@.len() > 0,
        ensures
            r@ == moe_value(&self.config, layer, x@, batch as int, seq as int),
    {
        let cfg = &self.config;
        let router = x.linear(&layer.gate_w, cfg.hidden_size, cfg.num_local_experts).softmax_last_dim();
        let mut sum = self.apply_expert(x, &layer.experts[0], &router, 0, batch, seq);
        let mut ei: usize = 1;
        while ei < layer.experts.len()
            invariant
                cfg == &self.config,
                1 <= ei <= layer.experts@.len(),
                sum@ == experts_value(
                    cfg,
                    layer.experts@,
                    ei as int,
                    x@,
                    router@,
                    batch as int,
                    seq as int,
                ),
            decreases layer.experts@.len() - ei,
        {
            sum = sum.add(&self.apply_expert(x, &layer.experts[ei], &router, ei, batch, seq));
            ei = ei + 1;
        }
        sum
    }
}

/// Name prefix of layer `i`.
pub open spec fn layer_prefix(i: int) -> Seq<char> {
    "model.layers."@ + decimal(i)
}

/// Name prefix of expert `k` of layer `i`.
pub open spec fn expert_prefix(i: int, k: int) -> Seq<char> {
    layer_prefix(i) + ".block_sparse_moe.experts."@ + decimal(k)
}

/// The failure, after an earlier one, to load the first `n` experts of layer `i`.
pub open spec fn experts_need(
    st: &Checkpoint,
    cfg: &MixtralConfig,
    e: Option<Fault>,
    i: int,
    n: int,
) -> Option<Fault>
    decreases n,
{
    if n <= 0 {
        e
    } else {
        let h = cfg.hidden_size as int;
        let inner = cfg.intermediate_size as int;
        let p = expert_prefix(i, n - 1);
        let e = experts_need(st, cfg, e, i, n - 1);
        let e = st.need_len(e, p + ".w1.weight"@, inner * h);
        let e = st.need_len(e, p + ".w2.weight"@, h * inner);
        st.need_len(e, p + ".w3.weight"@, inner * h)
    }
}

/// The failure, after an earlier one, to load the first `n` layers.
pub open spec fn layers_need(st: &Checkpoint, cfg: &MixtralConfig, e: Option<Fault>, n: int) -> Option<Fault>
    decreases n,
{
    if n <= 0 {
        e
    } else {
        let h = cfg.hidden_size as int;
        let p = layer_prefix(n - 1);
        let e = layers_need(st, cfg, e, n - 1);
        let e = st.need(e, p + ".input_layernorm.weight"@);
        let e = st.need(e, p + ".post_attention_layernorm.weight"@);
        let e = st.need_len(e, p + ".self_attn.q_proj.weight"@, cfg.q() * h);
        let e = st.need_len(e, p + ".self_attn.k_proj.weight"@, cfg.kv() * h);
        let e = st.need_len(e, p + ".self_attn.v_proj.weight"@, cfg.kv() * h);
        let e = st.need_len(e, p + ".self_attn.o_proj.weight"@, h * cfg.q());
        let e = st.need_len(e, p + ".block_sparse_moe.gate.weight"@, cfg.num_local_experts * h);
        experts_need(st, cfg, e, n - 1, cfg.num_local_experts as int)
    }
}

/// Whether `w` is expert `k` of layer `i` of the checkpoint.
pub open spec fn expert_loaded(
    st: &Checkpoint,
    cfg: &MixtralConfig,
    i: int,
    k: int,
    w: &MixtralExpertWeights,
) -> bool {
    let h = cfg.hidden_size as int;
    let inner = cfg.intermediate_size as int;
    let p = expert_prefix(i, k);
    &&& w.gate_w@ == loaded_matrix(st, p + ".w1.weight"@, inner, h)
    &&& w.down_w@ == loaded_matrix(st, p + ".w2.weight"@, h, inner)
    &&& w.up_w@ == loaded_matrix(st, p + ".w3.weight"@, inner, h)
}

/// Whether `w` is layer `i` of the checkpoint.
pub open spec fn layer_loaded(st: &Checkpoint, cfg: &MixtralConfig, i: int, w: &MixtralLayerWeights) -> bool {
    let h = cfg.hidden_size as int;
    let p = layer_prefix(i);
    &&& w.attn_norm_gain@ == st.data(p + ".input_layernorm.weight"@)
    &&& w.ffn_norm_gain@ == st.data(p + ".post_attention_layernorm.weight"@)
    &&& w.attn_q@ == loaded_matrix(st, p + ".self_attn.q_proj.weight"@, cfg.q(), h)
    &&& w.attn_k@ == loaded_matrix(st, p + ".self_attn.k_proj.weight"@, cfg.kv(), h)
    &&& w.attn_v@ == loaded_matrix(st, p + ".self_attn.v_proj.weight"@, cfg.kv(), h)
    &&& w.attn_o@ == loaded_matrix(st, p + ".self_attn.o_proj.weight"@, h, cfg.q())
    &&& w.gate_w@ == loaded_matrix(
        st,
        p + ".block_sparse_moe.gate.weight"@,
        cfg.num_local_experts as int,
        h,
    )
    &&& w.experts@.len() == cfg.num_local_experts
    &&& forall|k: int|
        0 <= k < w.experts@.len() ==> expert_loaded(st, cfg, i, k, &#[trigger] w.experts@[k])
}

impl MixtralWeights {
    /// Why a checkpoint cannot be loaded.
    pub open spec fn load_failure(st: &Checkpoint, cfg: &MixtralConfig) -> Option<Fault> {
        let e = st.need(None, "model.embed_tokens.weight"@);
        let e = layers_need(st, cfg, e, cfg.num_hidden_layers as int);
        let e = st.need(e, "model.norm.weight"@);
        st.need_len(e, "lm_head.weight"@, cfg.vocab_size * cfg.hidden_size)
    }

    /// Whether these are the weights of the checkpoint.
    pub open spec fn loaded(&self, st: &Checkpoint, cfg: &MixtralConfig) -> bool {
        &&& self.token_embedding@ == st.data("model.embed_tokens.weight"@)
        &&& self.layers@.len() == cfg.num_hidden_layers
        &&& forall|i: int|
            0 <= i < self.layers@.len() ==> layer_loaded(st, cfg, i, &#[trigger] self.layers@[i])
        &&& self.final_norm_gain@ == st.data("model.norm.weight"@)
        &&& self.output@ == loaded_matrix(
            st,
            "lm_head.weight"@,
            cfg.vocab_size as int,
            cfg.hidden_size as int,
        )
    }

    fn load_experts(ld: &mut Loader, cfg: &MixtralConfig, i: usize) -> (r: Vec<MixtralExpertWeights>)
        requires
            cfg.loadable(),
        ensures
            final(ld).st == old(ld).st,
            final(ld).fault() == experts_need(
                old(ld).st,
                cfg,
                old(ld).fault(),
                i as int,
                cfg.num_local_experts as int,
            ),
            r@.len() == cfg.num_local_experts,
            forall|k: int|
                0 <= k < r@.len() ==> expert_loaded(
                    old(ld).st,
                    cfg,
                    i as int,
                    k,
                    &#[trigger] r@[k],
                ),
    {
        let ghost st = ld.st;
        let ghost e0 = ld.fault();
        let h: usize = cfg.hidden_size;
        let inter: usize = cfg.intermediate_size;
        let mut experts: Vec<MixtralExpertWeights> = Vec::new();
        let mut e: usize = 0;
        while e < cfg.num_local_experts
            invariant
                cfg.loadable(),
                h == cfg.hidden_size,
                inter == cfg.intermediate_size,
                e <= cfg.num_local_experts,
                ld.st == st,
                ld.fault() == experts_need(st, cfg, e0, i as int, e as int),
                experts@.len() == e,
                forall|k: int|
                    0 <= k < e ==> expert_loaded(st, cfg, i as int, k, &#[trigger] experts@[k]),
            decreases cfg.num_local_experts - e,
        {
            let lp = numbered("model.layers.", i);
            let ep = numbered(join(lp.as_str(), ".block_sparse_moe.experts.").as_str(), e);
            let gate_w = ld.take_matrix(join(ep.as_str(), ".w1.weight").as_str(), inter, h);
            let down_w = ld.take_matrix(join(ep.as_str(), ".w2.weight").as_str(), h, inter);
            let up_w = ld.take_matrix(join(ep.as_str(), ".w3.weight").as_str(), inter, h);
            experts.push(
                MixtralExpertWeights {
                    gate_w: WeightStorage::F32(gate_w),
                    up_w: WeightStorage::F32(up_w),
                    down_w: WeightStorage::F32(down_w),
                },
            );
            e = e + 1;
        }
        experts
    }

    /// Loads the weights of a checkpoint. Projections and the router are stored
    /// as `(out, in)`.
    ///
    /// - `model.embed_tokens.weight`
    /// - `model.layers.{i}.input_layernorm.weight`,
    ///   `model.layers.{i}.post_attention_layernorm.weight`
    /// - `model.layers.{i}.self_attn.{q,k,v,o}_proj.weight`
    /// - `model.layers.{i}.block_sparse_moe.gate.weight`
    /// - `model.layers.{i}.block_sparse_moe.experts.{e}.{w1,w2,w3}.weight`
    /// - `model.norm.weight`, `lm_head.weight`
    pub fn load_from_mmapped(st: &Checkpoint, cfg: &MixtralConfig) -> (r: Result<Self, LoadError>)
        requires
            cfg.loadable(),
        ensures
            match r {
                Ok(w) => MixtralWeights::load_failure(st, cfg) is None && w.loaded(st, cfg),
                Err(e) => MixtralWeights::load_failure(st, cfg) == Some(e@),
            },
    {
        let h: usize = cfg.hidden_size;
        let q_dim: usize = cfg.num_attention_heads * cfg.head_dim;
        let kv_dim: usize = cfg.num_key_value_heads * cfg.head_dim;
        let mut ld = Loader::new(st);
        let token_embedding = ld.take("model.embed_tokens.weight");
        let ghost e0 = ld.fault();
        let mut layers: Vec<MixtralLayerWeights> = Vec::new();
        let mut i: usize = 0;
        while i < cfg.num_hidden_layers
            invariant
                cfg.loadable(),
                h == cfg.hidden_size,
                q_dim == cfg.q(),
                kv_dim == cfg.kv(),
                i <= cfg.num_hidden_layers,
                ld.st == st,
                ld.fault() == layers_need(st, cfg, e0, i as int),
                layers@.len() == i,
                forall|k: int| 0 <= k < i ==> layer_loaded(st, cfg, k, &#[trigger] layers@[k]),
            decreases cfg.num_hidden_layers - i,
        {
            let p = numbered("model.layers.", i);
            let p = p.as_str();
            let attn_norm_gain = ld.take(join(p, ".input_layernorm.weight").as_str());
            let ffn_norm_gain = ld.take(join(p, ".post_attention_layernorm.weight").as_str());
            let attn_q = ld.take_matrix(join(p, ".self_attn.q_proj.weight").as_str(), q_dim, h);
            let attn_k = ld.take_matrix(join(p, ".self_attn.k_proj.weight").as_str(), kv_dim, h);
            let attn_v = ld.take_matrix(join(p, ".self_attn.v_proj.weight").as_str(), kv_dim, h);
            let attn_o = ld.take_matrix(join(p, ".self_attn.o_proj.weight").as_str(), h, q_dim);
            let gate_w = ld.take_matrix(
                join(p, ".block_sparse_moe.gate.weight").as_str(),
                cfg.num_local_experts,
                h,
            );
            let experts = MixtralWeights::load_experts(&mut ld, cfg, i);
            layers.push(
                MixtralLayerWeights {
                    attn_norm_gain,
                    ffn_norm_gain,
                    attn_q: WeightStorage::F32(attn_q),
                    attn_k: WeightStorage::F32(attn_k),
                    attn_v: WeightStorage::F32(attn_v),
                    attn_o: WeightStorage::F32(attn_o),
                    gate_w,
                    experts,
                },
            );
            i = i + 1;
        }
        let final_norm_gain = ld.take("model.norm.weight");
        let output = ld.take_matrix("lm_head.weight", cfg.vocab_size, h);
        match ld.error {
            Some(e) => Err(e),
            None => Ok(
                MixtralWeights {
                    token_embedding,
                    layers,
                    final_norm_gain,
                    output: WeightStorage::F32(output),
                },
            ),
        }
    }
}

impl MixtralConfig {
    /// The heads fill the model width, all sizes are positive, and for `seq`
    /// tokens every tensor can be addressed.
    pub open spec fn addressable(&self, seq: int) -> bool {
        let h = self.hidden_size as int;
        &&& self.countable()
        &&& self.q() == h
        &&& self.num_attention_heads % self.num_key_value_heads == 0
        &&& self.head_dim >= 1
        &&& self.head_dim % 2 == 0
        &&& h >= 1
        &&& self.intermediate_size >= 1
        &&& self.vocab_size >= 1
        &&& self.num_local_experts >= 1
        &&& seq >= 1
        &&& seq * seq <= usize::MAX
        &&& seq * h <= usize::MAX
        &&& h * h <= usize::MAX
        &&& h * self.intermediate_size <= usize::MAX
        &&& h * self.num_local_experts <= usize::MAX
        &&& h * self.vocab_size <= usize::MAX
    }
}

impl MixtralLayerWeights {
    /// Every weight has the size that the configuration declares.
    pub open spec fn sized(&self, cfg: &MixtralConfig) -> bool {
        let h = cfg.hidden_size as int;
        let inner = cfg.intermediate_size as int;
        &&& self.attn_norm_gain@.len() == h
        &&& self.ffn_norm_gain@.len() == h
        &&& self.attn_q@.len() == h * h
        &&& self.attn_k@.len() == h * cfg.kv()
        &&& self.attn_v@.len() == h * cfg.kv()
        &&& self.attn_o@.len() == h * h
        &&& self.gate_w@.len() == h * cfg.num_local_experts
        &&& self.experts@.len() == cfg.num_local_experts
        &&& forall|i: int|
            0 <= i < self.experts@.len() ==> {
                let e = #[trigger] self.experts@[i];
                &&& e.gate_w@.len() == h * inner
                &&& e.up_w@.len() == h * inner
                &&& e.down_w@.len() == inner * h
            }
    }
}

impl MixtralWeights {
    /// Every weight has the size that the configuration declares.
    pub open spec fn sized(&self, cfg: &MixtralConfig) -> bool {
        let h = cfg.hidden_size as int;
        &&& self.token_embedding@.len() == cfg.vocab_size * h
        &&& forall|i: int| 0 <= i < self.layers@.len() ==> (#[trigger] self.layers@[i]).sized(cfg)
        &&& self.final_norm_gain@.len() == h
        &&& self.output@.len() == h * cfg.vocab_size
    }
}

pub proof fn experts_have(
    cfg: &MixtralConfig,
    w: &MixtralLayerWeights,
    n: int,
    x: Tensor,
    router: Tensor,
    s: int,
)
    requires
        cfg.addressable(s),
        w.sized(cfg),
        1 <= n <= w.experts@.len(),
        has(x, seq![1, s, cfg.hidden_size as int]),
        has(router, seq![1, s, cfg.num_local_experts as int]),
    ensures
        has(
            experts_value(cfg, w.experts@, n, x, router, 1, s),
            seq![1, s, cfg.hidden_size as int],
        ),
    decreases n,
{
    broadcast use extents;

    let h = cfg.hidden_size as int;
    let e = w.experts@[n - 1];
    swiglu_has(x, e.gate_w@, e.up_w@, e.down_w@, h, cfg.intermediate_size as int, 1, s);
    broadcast_to_has(router.narrow(2, n - 1, 1), seq![1, s, h]);
    assert(has(expert_value(cfg, &w.experts@[n - 1], x, router, n - 1, 1, s), seq![1, s, h]));
    if n > 1 {
        experts_have(cfg, w, n - 1, x, router, s);
    }
}

/// A layer keeps the extents of its operand.
pub proof fn layer_has(
    cfg: &MixtralConfig,
    w: &MixtralLayerWeights,
    x: Tensor,
    cos: Tensor,
    sin: Tensor,
    mask: Tensor,
    s: int,
)
    requires
        cfg.addressable(s),
        w.sized(cfg),
        has(x, seq![1, s, cfg.hidden_size as int]),
        has(cos, seq![s, cfg.head_dim as int]),
        has(sin, seq![s, cfg.head_dim as int]),
        has(mask, seq![1, 1, s, s]),
    ensures
        has(layer_value(cfg, w, x, cos, sin, mask), seq![1, s, cfg.hidden_size as int]),
{
    broadcast use extents;

    let h = cfg.hidden_size as int;
    let heads = cfg.num_attention_heads as int;
    let kvh = cfg.num_key_value_heads as int;
    let d = cfg.head_dim as int;
    let kv = cfg.kv();
    let rep = heads / kvh;
    heads_are_shared(heads, kvh, d);
    assert(h * kv <= h * h) by (nonlinear_arith)
        requires
            1 <= kv <= h,
    ;
    let n = x.rms_norm(w.attn_norm_gain@, h, cfg.rms_norm_eps);
    let q = n.linear(w.attn_q@, h, h).split_heads(heads, d).rope_with_tables(cos, sin);
    let k = n.linear(w.attn_k@, h, kv).split_heads(kvh, d).rope_with_tables(cos, sin);
    let v = n.linear(w.attn_v@, h, kv).split_heads(kvh, d);
    assert(k.repeat_interleave(1, rep).dims =~= seq![1, heads, s, d]);
    assert(v.repeat_interleave(1, rep).dims =~= seq![1, heads, s, d]);
    assert(lies_under(mask.dims, seq![1, heads, s, s]));
    masked_attention_has(
        q,
        k.repeat_interleave(1, rep),
        v.repeat_interleave(1, rep),
        inv_sqrt64(cfg.head_dim),
        mask,
        1,
        heads,
        s,
        d,
    );
    let ctx = masked_attention(
        q,
        k.repeat_interleave(1, rep),
        v.repeat_interleave(1, rep),
        inv_sqrt64(cfg.head_dim),
        mask,
    );
    let h1 = x.add(ctx.merge_heads().linear(w.attn_o@, h, h));
    assert(has(h1, seq![1, s, h]));
    let m = h1.rms_norm(w.ffn_norm_gain@, h, cfg.rms_norm_eps);
    let router = m.linear(w.gate_w@, h, cfg.num_local_experts as int).softmax_last_dim();
    experts_have(cfg, w, w.experts@.len() as int, m, router, s);
}

pub proof fn layers_have(
    cfg: &MixtralConfig,
    layers: Seq<MixtralLayerWeights>,
    n: int,
    x: Tensor,
    cos: Tensor,
    sin: Tensor,
    mask: Tensor,
    s: int,
)
    requires
        cfg.addressable(s),
        0 <= n <= layers.len(),
        forall|i: int| 0 <= i < layers.len() ==> (#[trigger] layers[i]).sized(cfg),
        has(x, seq![1, s, cfg.hidden_size as int]),
        has(cos, seq![s, cfg.head_dim as int]),
        has(sin, seq![s, cfg.head_dim as int]),
        has(mask, seq![1, 1, s, s]),
    ensures
        has(layers_value(cfg, layers, n, x, cos, sin, mask), seq![1, s, cfg.hidden_size as int]),
    decreases n,
{
    if n > 0 {
        layers_have(cfg, layers, n - 1, x, cos, sin, mask, s);
        layer_has(
            cfg,
            &layers[n - 1],
            layers_value(cfg, layers, n - 1, x, cos, sin, mask),
            cos,
            sin,
            mask,
            s,
        );
    }
}

/// On weights of the declared sizes every run over embeddings
/// `(1, seq, hidden_size)` succeeds: the hidden states keep these extents, and
/// the logits are `(1, seq, vocab_size)`.
pub proof fn embeds_run_succeeds(model: &MixtralModel, embeds: Tensor, start: int, seq: int)
    requires
        model.config.addressable(seq),
        model.weights.sized(&model.config),
        has(embeds, seq![1, seq, model.config.hidden_size as int]),
    ensures
        has(model.hidden(embeds, start), seq![1, seq, model.config.hidden_size as int]),
        has(model.logits(embeds, start), seq![1, seq, model.config.vocab_size as int]),
{
    broadcast use extents;

    let cfg = &model.config;
    let w = &model.weights;
    mask_has(window_data(cfg.sliding_window, seq), seq, 1, cfg.num_attention_heads as int);
    layers_have(
        cfg,
        w.layers@,
        w.layers@.len() as int,
        embeds,
        Tensor::rope_cos(cfg.rope_theta, start, seq, cfg.head_dim as int),
        Tensor::rope_sin(cfg.rope_theta, start, seq, cfg.head_dim as int),
        window_mask(cfg.sliding_window, seq),
        seq,
    );
}

/// On weights of the declared sizes a run over tokens succeeds, and the logits
/// are `(1, seq, vocab_size)`.
pub proof fn forward_succeeds(model: &MixtralModel, tokens: Seq<u32>, start: int)
    requires
        model.config.addressable(tokens.len() as int),
        model.weights.sized(&model.config),
    ensures
        has(
            model.hidden(model.embedded(tokens), start),
            seq![1, tokens.len() as int, model.config.hidden_size as int],
        ),
        has(
            model.logits(model.embedded(tokens), start),
            seq![1, tokens.len() as int, model.config.vocab_size as int],
        ),
{
    let cfg = &model.config;
    let h = cfg.hidden_size as int;
    assert(cfg.vocab_size * h == h * cfg.vocab_size) by (nonlinear_arith);
    embed_has(model.weights.token_embedding@, cfg.vocab_size as int, h, tokens);
    embeds_run_succeeds(model, model.embedded(tokens), start, tokens.len() as int);
}

/// A run over the embeddings of tokens has the outcome of the run over the
/// tokens, for the logits and for the hidden states.
pub proof fn embeds_run_matches(
    model: &MixtralModel,
    tokens: Seq<u32>,
    start: int,
    embeds: LazyTensor,
    by_tokens: Result<LazyTensor, Error>,
    by_embeds: Result<LazyTensor, Error>,
    hidden_by_tokens: Result<LazyTensor, Error>,
    hidden_by_embeds: Result<LazyTensor, Error>,
)
    requires
        outcome(Ok(embeds), model.embedded(tokens)),
        outcome(by_tokens, model.logits(model.embedded(tokens), start)),
        outcome(by_embeds, model.logits(embeds@, start)),
        outcome(hidden_by_tokens, model.hidden(model.embedded(tokens), start)),
        outcome(hidden_by_embeds, model.hidden(embeds@, start)),
    ensures
        agree(by_tokens, by_embeds),
        agree(hidden_by_tokens, hidden_by_embeds),
{
}

/// The logits are the projected hidden states.
pub proof fn logits_project_hidden(
    model: &MixtralModel,
    embeds: Tensor,
    start: int,
    hidden: LazyTensor,
    logits: Result<LazyTensor, Error>,
)
    requires
        outcome(Ok(hidden), model.hidden(embeds, start)),
        outcome(logits, model.logits(embeds, start)),
    ensures
        outcome(
            logits,
            hidden@.linear(
                model.weights.output@,
                model.config.hidden_size as int,
                model.config.vocab_size as int,
            ),
        ),
{
}

/// An expert works on each row by itself.
proof fn experts_agree<V>(
    at: At<V>,
    cfg: &MixtralConfig,
    w: &MixtralLayerWeights,
    n: int,
    x: Tensor,
    rx: Tensor,
    y: Tensor,
    ry: Tensor,
    t: int,
    u: int,
    m: int,
)
    requires
        lawful(at),
        cfg.addressable(t),
        cfg.addressable(u),
        w.sized(cfg),
        1 <= n <= w.experts@.len(),
        has(x, seq![1, t, cfg.hidden_size as int]),
        has(y, seq![1, u, cfg.hidden_size as int]),
        has(rx, seq![1, t, cfg.num_local_experts as int]),
        has(ry, seq![1, u, cfg.num_local_experts as int]),
        agrees(at, x, y, 1, m),
        agrees(at, rx, ry, 1, m),
    ensures
        agrees(
            at,
            experts_value(cfg, w.experts@, n, x, rx, 1, t),
            experts_value(cfg, w.experts@, n, y, ry, 1, u),
            1,
            m,
        ),
    decreases n,
{
    broadcast use extents;

    let h = cfg.hidden_size as int;
    let inner = cfg.intermediate_size as int;
    let i = n - 1;
    let e = w.experts@[i];
    swiglu_agrees(at, x, y, e.gate_w@, e.up_w@, e.down_w@, h, inner, t, u, m);
    let sx = swiglu(x, e.gate_w@, e.up_w@, e.down_w@, h, inner);
    let sy = swiglu(y, e.gate_w@, e.up_w@, e.down_w@, h, inner);
    let (cx, cy) = (rx.narrow(2, i, 1), ry.narrow(2, i, 1));
    let (d, f) = (seq![1, t, h], seq![1, u, h]);
    assert(cx.dims =~= seq![1, t, 1]);
    assert(cy.dims =~= seq![1, u, 1]);
    broadcast_to_has(cx, d);
    broadcast_to_has(cy, f);
    assert(cx.dims.update(1, u) =~= cy.dims);
    assert(d.update(1, u) =~= f);
    let (bx, by) = (cx.broadcast_to(d), cy.broadcast_to(f));
    let vx = expert_value(cfg, &w.experts@[i], x, rx, i, 1, t);
    let vy = expert_value(cfg, &w.experts@[i], y, ry, i, 1, u);
    assert forall|j: int| 0 <= j < m implies #[trigger] same(at, vx, vy, 1, j) by {
        assert(same(at, sx, sy, 1, j));
        assert(same(at, rx, ry, 1, j));
        assert(same(at, cx, cy, 1, j));
        assert(same(at, bx, by, 1, j));
        assert(same(at, sx.mul(bx), sy.mul(by), 1, j));
    }
    if n > 1 {
        experts_have(cfg, w, n, x, rx, t);
        experts_have(cfg, w, n, y, ry, u);
        experts_agree(at, cfg, w, n - 1, x, rx, y, ry, t, u, m);
        sum_agrees(
            at,
            experts_value(cfg, w.experts@, n - 1, x, rx, 1, t),
            vx,
            experts_value(cfg, w.experts@, n - 1, y, ry, 1, u),
            vy,
            1,
            m,
        );
    }
}

/// The first `n` layers over `t` positions, with their tables and their mask.
pub open spec fn layers_over(
    cfg: &MixtralConfig,
    layers: Seq<MixtralLayerWeights>,
    n: int,
    x: Tensor,
    start: int,
    t: int,
) -> Tensor {
    layers_value(
        cfg,
        layers,
        n,
        x,
        Tensor::rope_cos(cfg.rope_theta, start, t, cfg.head_dim as int),
        Tensor::rope_sin(cfg.rope_theta, start, t, cfg.head_dim as int),
        window_mask(cfg.sliding_window, t),
    )
}

proof fn layers_agree<V>(
    at: At<V>,
    cfg: &MixtralConfig,
    layers: Seq<MixtralLayerWeights>,
    n: int,
    x: Tensor,
    y: Tensor,
    start: int,
    t: int,
    u: int,
    m: int,
)
    requires
        lawful(at),
        cfg.addressable(t),
        cfg.addressable(u),
        0 <= n <= layers.len(),
        forall|i: int| 0 <= i < layers.len() ==> (#[trigger] layers[i]).sized(cfg),
        has(x, seq![1, t, cfg.hidden_size as int]),
        has(y, seq![1, u, cfg.hidden_size as int]),
        m <= t,
        m <= u,
        agrees(at, x, y, 1, m),
    ensures
        has(layers_over(cfg, layers, n, x, start, t), seq![1, t, cfg.hidden_size as int]),
        has(layers_over(cfg, layers, n, y, start, u), seq![1, u, cfg.hidden_size as int]),
        agrees(
            at,
            layers_over(cfg, layers, n, x, start, t),
            layers_over(cfg, layers, n, y, start, u),
            1,
            m,
        ),
    decreases n,
{
    broadcast use extents;

    if n > 0 {
        layers_agree(at, cfg, layers, n - 1, x, y, start, t, u, m);
        let h = cfg.hidden_size as int;
        let heads = cfg.num_attention_heads as int;
        let kvh = cfg.num_key_value_heads as int;
        let d = cfg.head_dim as int;
        let w = &layers[n - 1];
        let eps = cfg.rms_norm_eps;
        let theta = cfg.rope_theta;
        let a = layers_over(cfg, layers, n - 1, x, start, t);
        let b = layers_over(cfg, layers, n - 1, y, start, u);
        rms_norm_agrees(at, a, b, w.attn_norm_gain@, h, eps, t, u, m);
        let na = a.rms_norm(w.attn_norm_gain@, h, eps);
        let nb = b.rms_norm(w.attn_norm_gain@, h, eps);
        mask_has(window_data(cfg.sliding_window, t), t, 1, heads);
        mask_has(window_data(cfg.sliding_window, u), u, 1, heads);
        let (mt, mu) = (window_mask(cfg.sliding_window, t), window_mask(cfg.sliding_window, u));
        assert forall|j: int| 0 <= j < m implies #[trigger] look_back(mt, mu, j) by {
            window_masks_look_back(cfg.sliding_window, t, u, j);
        }
        let scale = inv_sqrt64(cfg.head_dim);
        let (q, k, v, o) = (w.attn_q@, w.attn_k@, w.attn_v@, w.attn_o@);
        shared_attention_agrees(
            at,
            na,
            nb,
            q,
            k,
            v,
            o,
            heads,
            kvh,
            d,
            theta,
            start,
            scale,
            mt,
            mu,
            t,
            u,
            m,
        );
        let aa = shared_attention(na, q, k, v, o, heads, kvh, d, theta, start, t, scale, mt);
        let ab = shared_attention(nb, q, k, v, o, heads, kvh, d, theta, start, u, scale, mu);
        sum_agrees(at, a, aa, b, ab, 1, m);
        let (a1, b1) = (a.add(aa), b.add(ab));
        rms_norm_agrees(at, a1, b1, w.ffn_norm_gain@, h, eps, t, u, m);
        let fa = a1.rms_norm(w.ffn_norm_gain@, h, eps);
        let fb = b1.rms_norm(w.ffn_norm_gain@, h, eps);
        let ne = cfg.num_local_experts as int;
        rows_map_alike(at, fa, fb, w.gate_w@, h, ne, t, u, m);
        let (ga, gb) = (fa.linear(w.gate_w@, h, ne), fb.linear(w.gate_w@, h, ne));
        let (ra, rb) = (ga.softmax_last_dim(), gb.softmax_last_dim());
        assert forall|j: int| 0 <= j < m implies #[trigger] same(at, ra, rb, 1, j) by {
            assert(same(at, ga, gb, 1, j));
        }
        experts_have(cfg, w, ne, fa, ra, t);
        experts_have(cfg, w, ne, fb, rb, u);
        experts_agree(at, cfg, w, ne, fa, ra, fb, rb, t, u, m);
        sum_agrees(
            at,
            a1,
            experts_value(cfg, w.experts@, ne, fa, ra, 1, t),
            b1,
            experts_value(cfg, w.experts@, ne, fb, rb, 1, u),
            1,
            m,
        );
    }
}

/// The final states and the logits of a position depend on the tokens up to it:
/// sequences that begin alike have states and logits that begin alike, whatever
/// follows.
pub proof fn logits_are_causal<V>(
    at: At<V>,
    model: &MixtralModel,
    a: Seq<u32>,
    b: Seq<u32>,
    start: int,
    m: int,
)
    requires
        lawful(at),
        model.config.addressable(a.len() as int),
        model.config.addressable(b.len() as int),
        model.weights.sized(&model.config),
        begin_alike(a, b, m),
    ensures
        agrees(
            at,
            model.hidden(model.embedded(a), start),
            model.hidden(model.embedded(b), start),
            1,
            m,
        ),
        agrees(
            at,
            model.logits(model.embedded(a), start),
            model.logits(model.embedded(b), start),
            1,
            m,
        ),
{
    let cfg = &model.config;
    let w = &model.weights;
    let h = cfg.hidden_size as int;
    let v = cfg.vocab_size as int;
    let (t, u) = (a.len() as int, b.len() as int);
    let n = w.layers@.len() as int;
    assert(v * h == h * v) by (nonlinear_arith);
    embed_has(w.token_embedding@, v, h, a);
    embed_has(w.token_embedding@, v, h, b);
    embeddings_agree(at, w.token_embedding@, v, h, a, b, m);
    let (ea, eb) = (model.embedded(a), model.embedded(b));
    layers_agree(at, cfg, w.layers@, n, ea, eb, start, t, u, m);
    let la = layers_over(cfg, w.layers@, n, ea, start, t);
    let lb = layers_over(cfg, w.layers@, n, eb, start, u);
    rms_norm_agrees(at, la, lb, w.final_norm_gain@, h, cfg.rms_norm_eps, t, u, m);
    rows_map_alike(at, model.hidden(ea, start), model.hidden(eb, start), w.output@, h, v, t, u, m);
}

/// Numbers that can be added and multiplied.
#[verifier::reject_recursive_types(V)]
pub ghost struct Numbers<V> {
    pub plus: spec_fn(V, V) -> V,
    pub times: spec_fn(V, V) -> V,
    pub one: V,
}

/// The sum of the first `n` weights that a router gives to a position.
pub open spec fn weight_sum<V>(value: Element<V>, num: Numbers<V>, router: Tensor, b: int, s: int, n: int) -> V
    decreases n,
{
    if n <= 1 {
        value(router, seq![b, s, 0])
    } else {
        (num.plus)(weight_sum(value, num, router, b, s, n - 1), value(router, seq![b, s, n - 1]))
    }
}

/// Elements are numbers: sums and products are taken element by element and
/// distribute, narrowing and repeating pick elements, and the weights of a
/// softmax sum to one.
pub open spec fn weighs<V>(value: Element<V>, num: Numbers<V>) -> bool {
    &&& forall|a: V, b: V, c: V|
        #[trigger] (num.plus)((num.times)(a, b), (num.times)(a, c)) == (num.times)(a, (num.plus)(b, c))
    &&& forall|a: V| #[trigger] (num.times)(a, num.one) == a
    &&& forall|t: Tensor, u: Tensor, p: Seq<int>|
        !t.add(u).bad() ==> #[trigger] value(t.add(u), p) == (num.plus)(value(t, p), value(u, p))
    &&& forall|t: Tensor, u: Tensor, p: Seq<int>|
        !t.mul(u).bad() ==> #[trigger] value(t.mul(u), p) == (num.times)(value(t, p), value(u, p))
    &&& forall|t: Tensor, start: int, len: int, p: Seq<int>|
        !t.narrow(2, start, len).bad() && inside(p, t.narrow(2, start, len).dims) ==> #[trigger] value(
            t.narrow(2, start, len),
            p,
        ) == value(t, p.update(2, start + p[2]))
    &&& forall|t: Tensor, d: Seq<int>, p: Seq<int>|
        !t.broadcast_to(d).bad() && d.len() == 3 && t.dims == d.update(2, 1) && inside(p, d)
            ==> #[trigger] value(t.broadcast_to(d), p) == value(t, p.update(2, 0))
    &&& forall|t: Tensor, b: int, s: int, n: int|
        !t.softmax_last_dim().bad() && t.rank() == 3 && 0 <= b < t.dims[0] && 0 <= s < t.dims[1] && n
            == t.dims[2] && n >= 1 ==> #[trigger] weight_sum(
            value,
            num,
            t.softmax_last_dim(),
            b,
            s,
            n,
        ) == num.one
}

/// The experts hold the same weights.
pub open spec fn experts_equal(experts: Seq<MixtralExpertWeights>) -> bool {
    forall|i: int|
        0 <= i < experts.len() ==> {
            &&& (#[trigger] experts[i]).gate_w@ == experts[0].gate_w@
            &&& experts[i].up_w@ == experts[0].up_w@
            &&& experts[i].down_w@ == experts[0].down_w@
        }
}

/// The first `n` of equal experts give what one of them gives, times the sum of
/// their weights.
proof fn equal_experts_add_up<V>(
    value: Element<V>,
    num: Numbers<V>,
    cfg: &MixtralConfig,
    w: &MixtralLayerWeights,
    n: int,
    x: Tensor,
    router: Tensor,
    s: int,
    p: Seq<int>,
)
    requires
        weighs(value, num),
        cfg.addressable(s),
        w.sized(cfg),
        experts_equal(w.experts@),
        1 <= n <= w.experts@.len(),
        has(x, seq![1, s, cfg.hidden_size as int]),
        has(router, seq![1, s, cfg.num_local_experts as int]),
        inside(p, seq![1, s, cfg.hidden_size as int]),
    ensures
        ({
            let e = w.experts@[0];
            let one = swiglu(
                x,
                e.gate_w@,
                e.up_w@,
                e.down_w@,
                cfg.hidden_size as int,
                cfg.intermediate_size as int,
            );
            value(experts_value(cfg, w.experts@, n, x, router, 1, s), p) == (num.times)(
                value(one, p),
                weight_sum(value, num, router, p[0], p[1], n),
            )
        }),
    decreases n,
{
    broadcast use extents;

    let h = cfg.hidden_size as int;
    let inner = cfg.intermediate_size as int;
    let i = n - 1;
    let e = w.experts@[i];
    let one = swiglu(x, e.gate_w@, e.up_w@, e.down_w@, h, inner);
    assert(one == swiglu(x, w.experts@[0].gate_w@, w.experts@[0].up_w@, w.experts@[0].down_w@, h, inner));
    swiglu_has(x, e.gate_w@, e.up_w@, e.down_w@, h, inner, 1, s);
    let d = seq![1, s, h];
    let c = router.narrow(2, i, 1);
    assert(c.dims =~= seq![1, s, 1]);
    assert(c.dims =~= d.update(2, 1));
    broadcast_to_has(c, d);
    let wide = c.broadcast_to(d);
    let q = p.update(2, 0);
    assert(inside(q, c.dims)) by {
        assert forall|k: int| 0 <= k < q.len() implies 0 <= #[trigger] q[k] < c.dims[k] by {
            assert(0 <= p[k] < d[k]);
        }
    }
    assert(value(wide, p) == value(c, q));
    assert(value(c, q) == value(router, q.update(2, i + q[2])));
    assert(q.update(2, i + q[2]) =~= seq![p[0], p[1], i]);
    assert(value(one.mul(wide), p) == (num.times)(value(one, p), value(router, seq![p[0], p[1], i])));
    if n > 1 {
        equal_experts_add_up(value, num, cfg, w, n - 1, x, router, s, p);
        experts_have(cfg, w, n - 1, x, router, s);
        experts_have(cfg, w, n, x, router, s);
        let before = experts_value(cfg, w.experts@, n - 1, x, router, 1, s);
        assert(value(before.add(one.mul(wide)), p) == (num.plus)(value(before, p), value(one.mul(wide), p)));
        let (a, b) = (weight_sum(value, num, router, p[0], p[1], n - 1), value(router, seq![p[0], p[1], i]));
        assert((num.plus)((num.times)(value(one, p), a), (num.times)(value(one, p), b)) == (num.times)(
            value(one, p),
            (num.plus)(a, b),
        ));
    }
}

/// Where all experts are equal the routing does not count: the mixture is what one
/// expert gives, whatever the router.
pub proof fn equal_experts_ignore_routing<V>(
    value: Element<V>,
    num: Numbers<V>,
    cfg: &MixtralConfig,
    w: &MixtralLayerWeights,
    x: Tensor,
    s: int,
    p: Seq<int>,
)
    requires
        weighs(value, num),
        cfg.addressable(s),
        w.sized(cfg),
        experts_equal(w.experts@),
        has(x, seq![1, s, cfg.hidden_size as int]),
        inside(p, seq![1, s, cfg.hidden_size as int]),
    ensures
        ({
            let e = w.experts@[0];
            let one = swiglu(
                x,
                e.gate_w@,
                e.up_w@,
                e.down_w@,
                cfg.hidden_size as int,
                cfg.intermediate_size as int,
            );
            value(moe_value(cfg, w, x, 1, s), p) == value(one, p)
        }),
{
    broadcast use extents;

    let ne = cfg.num_local_experts as int;
    let scores = x.linear(w.gate_w@, cfg.hidden_size as int, ne);
    let router = scores.softmax_last_dim();
    assert(has(scores, seq![1, s, ne]));
    let d = seq![1, s, cfg.hidden_size as int];
    assert(0 <= p[0] < d[0] && 0 <= p[1] < d[1]);
    equal_experts_add_up(value, num, cfg, w, ne, x, router, s, p);
    assert(weight_sum(value, num, router, p[0], p[1], ne) == num.one);
}

/// Where all experts are equal, neither the router, nor the number of experts, nor
/// the number asked for at each position counts: two such layers with the same
/// expert give the same. One of them may have a single expert.
pub proof fn equal_experts_are_as_one<V>(
    value: Element<V>,
    num: Numbers<V>,
    cfg: &MixtralConfig,
    w: &MixtralLayerWeights,
    other_cfg: &MixtralConfig,
    other: &MixtralLayerWeights,
    x: Tensor,
    s: int,
    p: Seq<int>,
)
    requires
        weighs(value, num),
        cfg.addressable(s),
        other_cfg.addressable(s),
        w.sized(cfg),
        other.sized(other_cfg),
        other_cfg.hidden_size == cfg.hidden_size,
        other_cfg.intermediate_size == cfg.intermediate_size,
        experts_equal(w.experts@),
        experts_equal(other.experts@),
        other.experts@[0].gate_w@ == w.experts@[0].gate_w@,
        other.experts@[0].up_w@ == w.experts@[0].up_w@,
        other.experts@[0].down_w@ == w.experts@[0].down_w@,
        has(x, seq![1, s, cfg.hidden_size as int]),
        inside(p, seq![1, s, cfg.hidden_size as int]),
    ensures
        value(moe_value(cfg, w, x, 1, s), p) == value(moe_value(other_cfg, other, x, 1, s), p),
{
    equal_experts_ignore_routing(value, num, cfg, w, x, s, p);
    equal_experts_ignore_routing(value, num, other_cfg, other, x, s, p);
}

} // verus!
