//! ModernBERT: a bidirectional encoder with alternating global and local
//! attention.
//!
//! Every `global_attn_every_n_layers`-th layer attends to all tokens, the
//! others to those at a distance of at most half of `local_attention`; the two
//! sorts have rotary tables of their own. Normalisations have no bias, and the
//! feed-forward part is gated by a Gaussian error linear unit.

use crate::common::{mask_value, square_index};
use crate::error::Error;
use crate::evaluation::{lawful, mixed_heads, same, seen_alike, sees, square_mask, At};
use crate::extents::{
    broadcast_add_under, constant_has, embed_has, extents, has, lies_under, products, reshape_has,
};
use crate::lazy::{outcome, LazyTensor, Tensor, Term, WeightStorage};
use crate::scalar::{fill, filled, inv_sqrt64, zero, Data, Scalar};
use std::sync::Arc;
use vstd::prelude::*;

verus! {

#[derive(Debug, Clone)]
pub struct ModernBertConfig {
    pub vocab_size: usize,
    pub hidden_size: usize,
    pub num_hidden_layers: usize,
    pub num_attention_heads: usize,
    pub intermediate_size: usize,
    pub max_position_embeddings: usize,
    pub layer_norm_eps: Scalar,
    /// Layer `i` is global where this divides `i`.
    pub global_attn_every_n_layers: usize,
    pub global_rope_theta: Scalar,
    /// Size of the window of a local layer.
    pub local_attention: usize,
    pub local_rope_theta: Scalar,
}

impl ModernBertConfig {
    /// Width of a head.
    pub open spec fn width(&self) -> int {
        self.hidden_size as int / self.num_attention_heads as int
    }

    /// The heads fill the model width, and the widths can be counted.
    pub open spec fn valid(&self) -> bool {
        &&& self.num_attention_heads > 0
        &&& self.num_attention_heads * self.width() == self.hidden_size
        &&& self.global_attn_every_n_layers > 0
        &&& 3 * self.hidden_size <= usize::MAX
        &&& 2 * self.intermediate_size <= usize::MAX
    }

    /// Width of a head.
    pub fn head_dim(&self) -> (r: usize)
        requires
            self.num_attention_heads > 0,
        ensures
            r == self.width(),
    {
        self.hidden_size / self.num_attention_heads
    }

    /// The `ModernBERT-base` sizes.
    pub fn modernbert_base() -> (r: Self)
        ensures
            r == (ModernBertConfig {
                vocab_size: 50368,
                hidden_size: 768,
                num_hidden_layers: 22,
                num_attention_heads: 12,
                intermediate_size: 1152,
                max_position_embeddings: 8192,
                layer_norm_eps: Scalar::F64(0x3EE4_F8B5_88E3_68F1),
                global_attn_every_n_layers: 3,
                global_rope_theta: Scalar::F64(0x4103_8800_0000_0000),
                local_attention: 128,
                local_rope_theta: Scalar::F64(0x40C3_8800_0000_0000),
            }),
            r.valid(),
    {
        ModernBertConfig {
            vocab_size: 50368,
            hidden_size: 768,
            num_hidden_layers: 22,
            num_attention_heads: 12,
            intermediate_size: 1152,
            max_position_embeddings: 8192,
            layer_norm_eps: Scalar::F64(0x3EE4_F8B5_88E3_68F1),
            global_attn_every_n_layers: 3,
            global_rope_theta: Scalar::F64(0x4103_8800_0000_0000),
            local_attention: 128,
            local_rope_theta: Scalar::F64(0x40C3_8800_0000_0000),
        }
    }
}

#[derive(Debug, Clone)]
pub struct ModernBertLayerWeights {
    /// Absent in the first layer, whose input is normed already.
    pub attn_norm_gain: Option<Data>,
    /// `[hidden, 3 * hidden]`.
    pub wqkv: WeightStorage,
    /// `[hidden, hidden]`.
    pub wo: WeightStorage,
    pub mlp_norm_gain: Data,
    /// `[hidden, 2 * intermediate]`: gate, then value.
    pub mlp_wi: WeightStorage,
    /// `[intermediate, hidden]`.
    pub mlp_wo: WeightStorage,
}

#[derive(Debug, Clone)]
pub struct ModernBertWeights {
    pub word_embedding: Data,
    pub embed_ln_gain: Data,
    pub layers: Vec<ModernBertLayerWeights>,
    pub final_norm_gain: Data,
}

#[derive(Debug, Clone)]
pub struct ModernBertModel {
    pub config: ModernBertConfig,
    pub weights: ModernBertWeights,
}

/// Whether the distance of `i` and `j` exceeds `half`.
pub open spec fn too_far(half: int, i: int, j: int) -> bool {
    i - j > half || j - i > half
}

/// The additive mask of a window; element `(i, j)` stands at `i * seq + j`.
pub open spec fn local_data(window: usize, seq: int) -> Seq<Scalar> {
    Seq::new(
        (seq * seq) as nat,
        |k: int| mask_value(too_far(window as int / 2, k / seq, k % seq)),
    )
}

/// In the mask, row `i` sees column `j` exactly where their distance is at most
/// half of the window; the mask is symmetric.
pub proof fn local_mask_rows(window: usize, seq: int, i: int, j: int)
    requires
        0 <= i < seq,
        0 <= j < seq,
    ensures
        0 <= i * seq + j < local_data(window, seq).len(),
        local_data(window, seq)[i * seq + j] == mask_value(
            i - j > window as int / 2 || j - i > window as int / 2,
        ),
        local_data(window, seq)[i * seq + j] == local_data(window, seq)[j * seq + i],
{
    square_index(seq, i, j);
    square_index(seq, j, i);
}

fn build_local_data(window: usize, seq: usize) -> (r: Vec<Scalar>)
    requires
        seq * seq <= usize::MAX,
    ensures
        r@ == local_data(window, seq as int),
{
    let half: usize = window / 2;
    let n: usize = seq * seq;
    let mut data: Vec<Scalar> = Vec::new();
    let mut k: usize = 0;
    while k < n
        invariant
            k <= n == seq * seq,
            half == window as int / 2,
            data@.len() == k,
            forall|m: int| 0 <= m < k ==> data@[m] == local_data(window, seq as int)[m],
        decreases n - k,
    {
        assert(seq > 0) by (nonlinear_arith)
            requires
                seq * seq > 0,
                seq >= 0,
        ;
        let i: usize = k / seq;
        let j: usize = k % seq;
        let far: bool = if i > j { i - j > half } else { j - i > half };
        data.push(
            if far {
                Scalar::F32(0xFF80_0000)
            } else {
                Scalar::F32(0)
            },
        );
        k = k + 1;
    }
    assert(data@ =~= local_data(window, seq as int));
    data
}

/// Normalisation without bias over the model width.
pub open spec fn normed(x: Tensor, gain: Seq<Scalar>, h: int, eps: Scalar) -> Tensor {
    x.layer_norm(gain, filled(zero(), h), h, eps)
}

fn apply_norm(x: &LazyTensor, gain: &Data, h: usize, eps: &Scalar) -> (r: LazyTensor)
    ensures
        r@ == normed(x@, gain@, h as int, *eps),
{
    x.layer_norm(gain, &Arc::new(fill(&Scalar::F32(0), h)), h, eps)
}

/// Self-attention over `x (batch, seq, hidden)`.
pub open spec fn attention_value(
    cfg: &ModernBertConfig,
    w: &ModernBertLayerWeights,
    x: Tensor,
    cos: Tensor,
    sin: Tensor,
    mask: Option<Tensor>,
) -> Tensor {
    let h = cfg.hidden_size as int;
    let heads = cfg.num_attention_heads as int;
    let d = cfg.width();
    let qkv = x.linear(w.wqkv@, h, 3 * h);
    let q = qkv.narrow(2, 0, h).split_heads(heads, d).rope_with_tables(cos, sin);
    let k = qkv.narrow(2, h, h).split_heads(heads, d).rope_with_tables(cos, sin);
    let v = qkv.narrow(2, 2 * h, h).split_heads(heads, d);
    let scores = q.matmul(k.transpose()).mul_scalar(inv_sqrt64(d as usize));
    let masked = match mask {
        None => scores,
        Some(m) => scores.broadcast_add(m),
    };
    masked.softmax_last_dim().matmul(v).merge_heads().linear(w.wo@, h, h)
}

/// The gated feed-forward part.
pub open spec fn geglu_value(cfg: &ModernBertConfig, w: &ModernBertLayerWeights, x: Tensor) -> Tensor {
    let h = cfg.hidden_size as int;
    let i = cfg.intermediate_size as int;
    let up = x.linear(w.mlp_wi@, h, 2 * i);
    up.narrow(2, 0, i).gelu_erf().mul(up.narrow(2, i, i)).linear(w.mlp_wo@, i, h)
}

/// One encoder layer.
pub open spec fn layer_value(
    cfg: &ModernBertConfig,
    w: &ModernBertLayerWeights,
    x: Tensor,
    cos: Tensor,
    sin: Tensor,
    mask: Option<Tensor>,
) -> Tensor {
    let h = cfg.hidden_size as int;
    let n = match w.attn_norm_gain {
        None => x,
        Some(g) => normed(x, g@, h, cfg.layer_norm_eps),
    };
    let y = x.add(attention_value(cfg, w, n, cos, sin, mask));
    y.add(geglu_value(cfg, w, normed(y, w.mlp_norm_gain@, h, cfg.layer_norm_eps)))
}

/// The optional value of an optional expression.
pub open spec fn mask_view(m: Option<&LazyTensor>) -> Option<Tensor> {
    match m {
        None => None,
        Some(t) => Some(t@),
    }
}

impl ModernBertModel {
    /// The window mask `(1, 1, seq, seq)`.
    pub open spec fn local_mask(&self, seq: int) -> Tensor {
        Tensor::constant(local_data(self.config.local_attention, seq), seq![seq, seq]).reshape(
            seq![1, 1, seq, seq],
        )
    }

    /// Whether layer `i` is local.
    pub open spec fn is_local(&self, i: int) -> bool {
        i % self.config.global_attn_every_n_layers as int != 0
    }

    /// The mask of layer `i`.
    pub open spec fn layer_mask(&self, seq: int, i: int, mask: Option<Tensor>) -> Option<Tensor> {
        if self.is_local(i) {
            match mask {
                None => Some(self.local_mask(seq)),
                Some(m) => Some(m.broadcast_add(self.local_mask(seq))),
            }
        } else {
            mask
        }
    }

    /// Base of the rotary angles of layer `i`.
    pub open spec fn theta(&self, i: int) -> Scalar {
        if self.is_local(i) {
            self.config.local_rope_theta
        } else {
            self.config.global_rope_theta
        }
    }

    /// The hidden states after the first `n` layers; before the first layer, the
    /// normed embeddings.
    pub open spec fn states(&self, tokens: Seq<u32>, mask: Option<Tensor>, n: int) -> Tensor
        decreases n,
    {
        let cfg = &self.config;
        let w = &self.weights;
        let h = cfg.hidden_size as int;
        let seq = tokens.len() as int;
        if n <= 0 {
            normed(
                Tensor::embed_tokens(w.word_embedding@, cfg.vocab_size as int, h, tokens),
                w.embed_ln_gain@,
                h,
                cfg.layer_norm_eps,
            )
        } else {
            layer_value(
                cfg,
                &w.layers@[n - 1],
                self.states(tokens, mask, n - 1),
                Tensor::rope_cos(self.theta(n - 1), 0, seq, cfg.width()),
                Tensor::rope_sin(self.theta(n - 1), 0, seq, cfg.width()),
                self.layer_mask(seq, n - 1, mask),
            )
        }
    }

    /// The hidden states after the last layer.
    pub open spec fn last_states(&self, tokens: Seq<u32>, mask: Option<Tensor>) -> Tensor {
        self.states(tokens, mask, self.weights.layers@.len() as int)
    }

    /// The final hidden states.
    pub open spec fn value(&self, tokens: Seq<u32>, mask: Option<Tensor>) -> Tensor {
        normed(
            self.last_states(tokens, mask),
            self.weights.final_norm_gain@,
            self.config.hidden_size as int,
            self.config.layer_norm_eps,
        )
    }

    /// Number of tokens that the model accepts.
    pub open spec fn accepts(&self, seq: int) -> bool {
        0 < seq <= self.config.max_position_embeddings && seq * seq <= usize::MAX
    }

    /// Hidden states `(1, seq, hidden_size)` of the tokens. The optional additive
    /// mask `(1, 1, seq, seq)` applies to every layer, the window mask on top of
    /// it to the local ones.
    pub fn forward(&self, tokens: &[u32], attention_mask: Option<&LazyTensor>) -> (r: Result<
        LazyTensor,
        Error,
    >)
        requires
            self.config.valid(),
            self.accepts(tokens@.len() as int),
        ensures
            outcome(r, self.value(tokens@, mask_view(attention_mask))),
    {
        let ids: [usize; 0] = [];
        let (x, out) = self.run(tokens, &ids, attention_mask);
        apply_norm(
            &x,
            &self.weights.final_norm_gain,
            self.config.hidden_size,
            &self.config.layer_norm_eps,
        ).finish()
    }

    /// The hidden states `(1, seq, hidden_size)` after each of the given layers,
    /// before the final normalisation. The layer numbers must increase.
    pub fn forward_intermediate_layers(
        &self,
        tokens: &[u32],
        layer_ids: &[usize],
        attention_mask: Option<&LazyTensor>,
    ) -> (r: Result<Vec<LazyTensor>, Error>)
        requires
            self.config.valid(),
            self.accepts(tokens@.len() as int),
            layer_ids@.len() > 0,
            forall|i: int, j: int| 0 <= i < j < layer_ids@.len() ==> layer_ids@[i] < layer_ids@[j],
            layer_ids@.last() < self.weights.layers@.len(),
        ensures
            match r {
                Ok(v) => {
                    &&& !self.last_states(tokens@, mask_view(attention_mask)).bad()
                    &&& v@.len() == layer_ids@.len()
                    &&& forall|i: int|
                        0 <= i < v@.len() ==> (#[trigger] v@[i])@ == self.states(
                            tokens@,
                            mask_view(attention_mask),
                            layer_ids@[i] + 1,
                        )
                },
                Err(e) => self.last_states(tokens@, mask_view(attention_mask)).term
                    == Term::Invalid(e),
            },
    {
        let (x, out) = self.run(tokens, layer_ids, attention_mask);
        match x.failure() {
            Some(e) => Err(e),
            None => Ok(out),
        }
    }

    fn run(&self, tokens: &[u32], layer_ids: &[usize], attention_mask: Option<&LazyTensor>) -> (r: (
        LazyTensor,
        Vec<LazyTensor>,
    ))
        requires
            self.config.valid(),
            self.accepts(tokens@.len() as int),
            forall|i: int, j: int| 0 <= i < j < layer_ids@.len() ==> layer_ids@[i] < layer_ids@[j],
            layer_ids@.len() > 0 ==> layer_ids@.last() < self.weights.layers@.len(),
        ensures
            r.0@ == self.last_states(tokens@, mask_view(attention_mask)),
            r.1@.len() == layer_ids@.len(),
            forall|i: int|
                0 <= i < r.1@.len() ==> (#[trigger] r.1@[i])@ == self.states(
                    tokens@,
                    mask_view(attention_mask),
                    layer_ids@[i] + 1,
                ),
    {
        let cfg = &self.config;
        let weights = &self.weights;
        let seq: usize = tokens.len();
        let h: usize = cfg.hidden_size;
        let head_dim: usize = cfg.head_dim();
        let ghost mask = mask_view(attention_mask);
        let embeds = LazyTensor::embed_tokens(&weights.word_embedding, cfg.vocab_size, h, tokens);
        let mut x = apply_norm(&embeds, &weights.embed_ln_gain, h, &cfg.layer_norm_eps);
        let (global_cos, global_sin) = LazyTensor::rope_tables(
            &cfg.global_rope_theta,
            0,
            seq,
            head_dim,
        );
        let (local_cos, local_sin) = LazyTensor::rope_tables(&cfg.local_rope_theta, 0, seq, head_dim);
        let local_mask = LazyTensor::const2(
            &Arc::new(build_local_data(cfg.local_attention, seq)),
            seq,
            seq,
        ).reshape4(1, 1, seq, seq);
        let local_full = match attention_mask {
            None => local_mask,
            Some(global) => global.broadcast_add(&local_mask),
        };
        let mut out: Vec<LazyTensor> = Vec::new();
        let mut i: usize = 0;
        while i < weights.layers.len()
            invariant
                cfg == &self.config,
                weights == &self.weights,
                cfg.valid(),
                seq == tokens@.len(),
                mask == mask_view(attention_mask),
                i <= weights.layers@.len(),
                x@ == self.states(tokens@, mask, i as int),
                global_cos@ == Tensor::rope_cos(cfg.global_rope_theta, 0, seq as int, cfg.width()),
                global_sin@ == Tensor::rope_sin(cfg.global_rope_theta, 0, seq as int, cfg.width()),
                local_cos@ == Tensor::rope_cos(cfg.local_rope_theta, 0, seq as int, cfg.width()),
                local_sin@ == Tensor::rope_sin(cfg.local_rope_theta, 0, seq as int, cfg.width()),
                local_full@ == match mask {
                    None => self.local_mask(seq as int),
                    Some(m) => m.broadcast_add(self.local_mask(seq as int)),
                },
                forall|a: int, b: int|
                    0 <= a < b < layer_ids@.len() ==> layer_ids@[a] < layer_ids@[b],
                layer_ids@.len() > 0 ==> layer_ids@.last() < weights.layers@.len(),
                out@.len() <= layer_ids@.len(),
                forall|a: int| 0 <= a < out@.len() ==> layer_ids@[a] < i,
                out@.len() < layer_ids@.len() ==> layer_ids@[out@.len() as int] >= i,
                forall|a: int|
                    0 <= a < out@.len() ==> (#[trigger] out@[a])@ == self.states(
                        tokens@,
                        mask,
                        layer_ids@[a] + 1,
                    ),
            decreases weights.layers@.len() - i,
        {
            let uses_local: bool = i % cfg.global_attn_every_n_layers != 0;
            x = if uses_local {
                self.apply_layer(&x, &weights.layers[i], &local_cos, &local_sin, Some(&local_full))
            } else {
                self.apply_layer(&x, &weights.layers[i], &global_cos, &global_sin, attention_mask)
            };
            if out.len() < layer_ids.len() && layer_ids[out.len()] == i {
                out.push(x.clone());
            }
            i = i + 1;
        }
        (x, out)
    }

    fn apply_layer(
        &self,
        x: &LazyTensor,
        layer: &ModernBertLayerWeights,
        rope_cos: &LazyTensor,
        rope_sin: &LazyTensor,
        attention_mask: Option<&LazyTensor>,
    ) -> (r: LazyTensor)
        requires
            self.config.valid(),
        ensures
            r@ == layer_value(
                &self.config,
                layer,
                x@,
                rope_cos@,
                rope_sin@,
                mask_view(attention_mask),
            ),
    {
        let cfg = &self.config;
        let h: usize = cfg.hidden_size;
        let x_normed = match &layer.attn_norm_gain {
            None => x.clone(),
            Some(gain) => apply_norm(x, gain, h, &cfg.layer_norm_eps),
        };
        let attn_out = self.attention(&x_normed, layer, rope_cos, rope_sin, attention_mask);
        let y = x.add(&attn_out);
        let y_normed = apply_norm(&y, &layer.mlp_norm_gain, h, &cfg.layer_norm_eps);
        y.add(&self.geglu(&y_normed, layer))
    }

    fn attention(
        &self,
        x: &LazyTensor,
        layer: &ModernBertLayerWeights,
        rope_cos: &LazyTensor,
        rope_sin: &LazyTensor,
        attention_mask: Option<&LazyTensor>,
    ) -> (r: LazyTensor)
        requires
            self.config.valid(),
        ensures
            r@ == attention_value(
                &self.config,
                layer,
                x@,
                rope_cos@,
                rope_sin@,
                mask_view(attention_mask),
            ),
    {
        let cfg = &self.config;
        let h: usize = cfg.hidden_size;
        let n_heads: usize = cfg.num_attention_heads;
        let head_dim: usize = cfg.head_dim();
        let qkv = layer.wqkv.apply_linear(x, h, 3 * h);
        let q = qkv.narrow(2, 0, h).split_heads(n_heads, head_dim);
        let k = qkv.narrow(2, h, h).split_heads(n_heads, head_dim);
        let v = qkv.narrow(2, 2 * h, h).split_heads(n_heads, head_dim);
        let q_r = q.rope_with_tables(rope_cos, rope_sin);
        let k_r = k.rope_with_tables(rope_cos, rope_sin);
        let scores = q_r.matmul(&k_r.transpose()).mul_scalar(&Scalar::inv_sqrt64(head_dim));
        let masked = match attention_mask {
            None => scores,
            Some(mask) => scores.broadcast_add(mask),
        };
        let merged = masked.softmax_last_dim().matmul(&v).merge_heads();
        layer.wo.apply_linear(&merged, h, h)
    }

    fn geglu(&self, x: &LazyTensor, layer: &ModernBertLayerWeights) -> (r: LazyTensor)
        requires
            self.config.valid(),
        ensures
            r@ == geglu_value(&self.config, layer, x@),
    {
        let h: usize = self.config.hidden_size;
        let i: usize = self.config.intermediate_size;
        let up = layer.mlp_wi.apply_linear(x, h, 2 * i);
        let inner = up.narrow(2, 0, i).gelu_erf().mul(&up.narrow(2, i, i));
        layer.mlp_wo.apply_linear(&inner, i, h)
    }
}

impl ModernBertConfig {
    /// All sizes are positive, heads have an even width, and for `seq` tokens
    /// every tensor can be addressed.
    pub open spec fn addressable(&self, seq: int) -> bool {
        let h = self.hidden_size as int;
        &&& self.valid()
        &&& self.width() % 2 == 0
        &&& h >= 1
        &&& self.intermediate_size >= 1
        &&& self.vocab_size >= 1
        &&& seq >= 1
        &&& seq * seq <= usize::MAX
        &&& seq * h <= usize::MAX
        &&& h * (3 * h) <= usize::MAX
        &&& h * (2 * self.intermediate_size) <= usize::MAX
        &&& self.vocab_size * h <= usize::MAX
    }
}

impl ModernBertLayerWeights {
    /// Every weight has the size that the configuration declares.
    pub open spec fn sized(&self, cfg: &ModernBertConfig) -> bool {
        let h = cfg.hidden_size as int;
        let i = cfg.intermediate_size as int;
        &&& self.attn_norm_gain matches Some(g) ==> g@.len() == h
        &&& self.wqkv@.len() == h * (3 * h)
        &&& self.wo@.len() == h * h
        &&& self.mlp_norm_gain@.len() == h
        &&& self.mlp_wi@.len() == h * (2 * i)
        &&& self.mlp_wo@.len() == i * h
    }
}

impl ModernBertWeights {
    /// Every weight has the size that the configuration declares.
    pub open spec fn sized(&self, cfg: &ModernBertConfig) -> bool {
        let h = cfg.hidden_size as int;
        &&& self.word_embedding@.len() == cfg.vocab_size * h
        &&& self.embed_ln_gain@.len() == h
        &&& forall|i: int| 0 <= i < self.layers@.len() ==> (#[trigger] self.layers@[i]).sized(cfg)
        &&& self.final_norm_gain@.len() == h
    }
}

/// A layer keeps the extents of its operand.
pub proof fn layer_has(
    cfg: &ModernBertConfig,
    w: &ModernBertLayerWeights,
    x: Tensor,
    cos: Tensor,
    sin: Tensor,
    mask: Option<Tensor>,
    s: int,
)
    requires
        cfg.addressable(s),
        w.sized(cfg),
        has(x, seq![1, s, cfg.hidden_size as int]),
        has(cos, seq![s, cfg.width()]),
        has(sin, seq![s, cfg.width()]),
        mask matches Some(m) ==> has(m, seq![1, 1, s, s]),
    ensures
        has(layer_value(cfg, w, x, cos, sin, mask), seq![1, s, cfg.hidden_size as int]),
{
    broadcast use extents;

    let h = cfg.hidden_size as int;
    let heads = cfg.num_attention_heads as int;
    let d = cfg.width();
    let i = cfg.intermediate_size as int;
    assert(h * h <= h * (3 * h) && i * h <= h * (2 * i)) by (nonlinear_arith)
        requires
            h >= 1,
            i >= 1,
    ;
    let n = match w.attn_norm_gain {
        None => x,
        Some(g) => normed(x, g@, h, cfg.layer_norm_eps),
    };
    assert(has(n, seq![1, s, h]));
    let qkv = n.linear(w.wqkv@, h, 3 * h);
    let q = qkv.narrow(2, 0, h).split_heads(heads, d).rope_with_tables(cos, sin);
    let k = qkv.narrow(2, h, h).split_heads(heads, d).rope_with_tables(cos, sin);
    let scores = q.matmul(k.transpose()).mul_scalar(inv_sqrt64(d as usize));
    assert(has(scores, seq![1, heads, s, s]));
    let masked = match mask {
        None => scores,
        Some(m) => scores.broadcast_add(m),
    };
    if let Some(m) = mask {
        assert(lies_under(m.dims, scores.dims));
        broadcast_add_under(scores, m);
    }
    assert(has(masked, seq![1, heads, s, s]));
    let attn = attention_value(cfg, w, n, cos, sin, mask);
    assert(has(attn, seq![1, s, h]));
    let y = x.add(attn);
    assert(has(y, seq![1, s, h]));
    let up = normed(y, w.mlp_norm_gain@, h, cfg.layer_norm_eps).linear(w.mlp_wi@, h, 2 * i);
    assert(up.narrow(2, 0, i).dims =~= seq![1, s, i]);
    assert(up.narrow(2, i, i).dims =~= seq![1, s, i]);
}

pub proof fn local_mask_has(model: &ModernBertModel, s: int)
    requires
        s >= 1,
        s * s <= usize::MAX,
    ensures
        has(model.local_mask(s), seq![1, 1, s, s]),
{
    let data = local_data(model.config.local_attention, s);
    products(s, s, 1, 1, 1, 1);
    products(1, 1, s, s, 1, 1);
    assert(1 * 1 * s * s == s * s && s * s >= 0) by (nonlinear_arith);
    constant_has(data, seq![s, s]);
    reshape_has(Tensor::constant(data, seq![s, s]), seq![1, 1, s, s]);
}

/// On weights of the declared sizes the hidden states after each layer are
/// `(1, seq, hidden_size)`. A mask, where there is one, is `(1, 1, seq, seq)`.
pub proof fn states_succeed(model: &ModernBertModel, tokens: Seq<u32>, mask: Option<Tensor>, n: int)
    requires
        model.config.addressable(tokens.len() as int),
        model.weights.sized(&model.config),
        0 <= n <= model.weights.layers@.len(),
        mask matches Some(m) ==> has(m, seq![1, 1, tokens.len() as int, tokens.len() as int]),
    ensures
        has(
            model.states(tokens, mask, n),
            seq![1, tokens.len() as int, model.config.hidden_size as int],
        ),
    decreases n,
{
    broadcast use extents;

    let cfg = &model.config;
    let w = &model.weights;
    let h = cfg.hidden_size as int;
    let s = tokens.len() as int;
    if n <= 0 {
        embed_has(w.word_embedding@, cfg.vocab_size as int, h, tokens);
    } else {
        states_succeed(model, tokens, mask, n - 1);
        local_mask_has(model, s);
        if let Some(m) = mask {
            assert(lies_under(model.local_mask(s).dims, m.dims));
            broadcast_add_under(m, model.local_mask(s));
        }
        layer_has(
            cfg,
            &w.layers@[n - 1],
            model.states(tokens, mask, n - 1),
            Tensor::rope_cos(model.theta(n - 1), 0, s, cfg.width()),
            Tensor::rope_sin(model.theta(n - 1), 0, s, cfg.width()),
            model.layer_mask(s, n - 1, mask),
            s,
        );
    }
}

/// On weights of the declared sizes a run succeeds, and the hidden states are
/// `(1, seq, hidden_size)`.
pub proof fn forward_succeeds(model: &ModernBertModel, tokens: Seq<u32>, mask: Option<Tensor>)
    requires
        model.config.addressable(tokens.len() as int),
        model.weights.sized(&model.config),
        mask matches Some(m) ==> has(m, seq![1, 1, tokens.len() as int, tokens.len() as int]),
    ensures
        has(
            model.value(tokens, mask),
            seq![1, tokens.len() as int, model.config.hidden_size as int],
        ),
{
    broadcast use extents;

    states_succeed(model, tokens, mask, model.weights.layers@.len() as int);
}

/// Two states are the same at every row within distance `r` of row `j`.
pub open spec fn agrees_near<V>(at: At<V>, x: Tensor, y: Tensor, j: int, r: int, s: int) -> bool {
    forall|i: int| 0 <= i < s && !too_far(r, i, j) ==> #[trigger] same(at, x, y, 1, i)
}

/// A third of the fused projection, turned or not, is the same where the rows are.
proof fn thirds_agree<V>(
    at: At<V>,
    x: Tensor,
    y: Tensor,
    w: Seq<Scalar>,
    cfg: &ModernBertConfig,
    cos: Tensor,
    sin: Tensor,
    s: int,
    i: int,
)
    requires
        lawful(at),
        cfg.addressable(s),
        w.len() == cfg.hidden_size * (3 * cfg.hidden_size),
        has(x, seq![1, s, cfg.hidden_size as int]),
        has(y, seq![1, s, cfg.hidden_size as int]),
        has(cos, seq![s, cfg.width()]),
        has(sin, seq![s, cfg.width()]),
        same(at, x, y, 1, i),
    ensures
        ({
            let h = cfg.hidden_size as int;
            let heads = cfg.num_attention_heads as int;
            let d = cfg.width();
            let (fx, fy) = (x.linear(w, h, 3 * h), y.linear(w, h, 3 * h));
            let qx = fx.narrow(2, 0, h).split_heads(heads, d).rope_with_tables(cos, sin);
            let qy = fy.narrow(2, 0, h).split_heads(heads, d).rope_with_tables(cos, sin);
            let kx = fx.narrow(2, h, h).split_heads(heads, d).rope_with_tables(cos, sin);
            let ky = fy.narrow(2, h, h).split_heads(heads, d).rope_with_tables(cos, sin);
            let vx = fx.narrow(2, 2 * h, h).split_heads(heads, d);
            let vy = fy.narrow(2, 2 * h, h).split_heads(heads, d);
            &&& same(at, qx, qy, 2, i)
            &&& same(at, kx, ky, 2, i)
            &&& same(at, vx, vy, 2, i)
        }),
{
    broadcast use extents;

    let h = cfg.hidden_size as int;
    let heads = cfg.num_attention_heads as int;
    let d = cfg.width();
    let (fx, fy) = (x.linear(w, h, 3 * h), y.linear(w, h, 3 * h));
    assert(has(fx, seq![1, s, 3 * h]));
    assert(has(fy, seq![1, s, 3 * h]));
    assert(same(at, fx, fy, 1, i));
    let (qx, qy) = (fx.narrow(2, 0, h), fy.narrow(2, 0, h));
    let (kx, ky) = (fx.narrow(2, h, h), fy.narrow(2, h, h));
    let (vx, vy) = (fx.narrow(2, 2 * h, h), fy.narrow(2, 2 * h, h));
    assert(same(at, qx, qy, 1, i));
    assert(same(at, kx, ky, 1, i));
    assert(same(at, vx, vy, 1, i));
    assert(same(at, qx.split_heads(heads, d), qy.split_heads(heads, d), 2, i));
    assert(same(at, kx.split_heads(heads, d), ky.split_heads(heads, d), 2, i));
    assert(same(at, vx.split_heads(heads, d), vy.split_heads(heads, d), 2, i));
    assert(same(at, cos, cos, 0, i) && same(at, sin, sin, 0, i));
    assert(same(
        at,
        qx.split_heads(heads, d).rope_with_tables(cos, sin),
        qy.split_heads(heads, d).rope_with_tables(cos, sin),
        2,
        i,
    ));
    assert(same(
        at,
        kx.split_heads(heads, d).rope_with_tables(cos, sin),
        ky.split_heads(heads, d).rope_with_tables(cos, sin),
        2,
        i,
    ));
}

/// A normed row is the same where the row is.
proof fn norm_agrees<V>(at: At<V>, x: Tensor, y: Tensor, gain: Seq<Scalar>, h: int, eps: Scalar, s: int, i: int)
    requires
        lawful(at),
        has(x, seq![1, s, h]),
        has(y, seq![1, s, h]),
        1 <= h <= usize::MAX,
        gain.len() == h,
        same(at, x, y, 1, i),
    ensures
        has(normed(x, gain, h, eps), seq![1, s, h]),
        has(normed(y, gain, h, eps), seq![1, s, h]),
        same(at, normed(x, gain, h, eps), normed(y, gain, h, eps), 1, i),
{
    broadcast use extents;

    let g = Tensor::constant(gain, seq![h]);
    let b = Tensor::constant(filled(zero(), h), seq![h]);
    let (nx, ny) = (x.layer_norm_last_dim(eps), y.layer_norm_last_dim(eps));
    assert(same(at, nx, ny, 1, i));
    assert(same(at, nx.broadcast_mul(g), ny.broadcast_mul(g), 1, i));
    assert(same(at, nx.broadcast_mul(g).broadcast_add(b), ny.broadcast_mul(g).broadcast_add(b), 1, i));
}

/// The feed-forward part works on each row by itself.
proof fn geglu_agrees<V>(
    at: At<V>,
    cfg: &ModernBertConfig,
    w: &ModernBertLayerWeights,
    x: Tensor,
    y: Tensor,
    s: int,
    j: int,
)
    requires
        lawful(at),
        cfg.addressable(s),
        w.sized(cfg),
        has(x, seq![1, s, cfg.hidden_size as int]),
        has(y, seq![1, s, cfg.hidden_size as int]),
        same(at, x, y, 1, j),
    ensures
        has(geglu_value(cfg, w, x), seq![1, s, cfg.hidden_size as int]),
        has(geglu_value(cfg, w, y), seq![1, s, cfg.hidden_size as int]),
        same(at, geglu_value(cfg, w, x), geglu_value(cfg, w, y), 1, j),
{
    broadcast use extents;

    let h = cfg.hidden_size as int;
    let i = cfg.intermediate_size as int;
    assert(i * h <= h * (2 * i)) by (nonlinear_arith)
        requires
            h >= 1,
            i >= 1,
    ;
    let (ux, uy) = (x.linear(w.mlp_wi@, h, 2 * i), y.linear(w.mlp_wi@, h, 2 * i));
    assert(has(ux, seq![1, s, 2 * i]) && has(uy, seq![1, s, 2 * i]));
    let (ax, ay) = (ux.narrow(2, 0, i), uy.narrow(2, 0, i));
    let (bx, by) = (ux.narrow(2, i, i), uy.narrow(2, i, i));
    assert(ax.dims =~= seq![1, s, i] && ay.dims =~= seq![1, s, i]);
    assert(bx.dims =~= seq![1, s, i] && by.dims =~= seq![1, s, i]);
    assert(same(at, ux, uy, 1, j));
    assert(same(at, ax, ay, 1, j));
    assert(same(at, bx, by, 1, j));
    assert(same(at, ax.gelu_erf(), ay.gelu_erf(), 1, j));
    let (mx, my) = (ax.gelu_erf().mul(bx), ay.gelu_erf().mul(by));
    assert(same(at, mx, my, 1, j));
    assert(same(at, mx.linear(w.mlp_wo@, i, h), my.linear(w.mlp_wo@, i, h), 1, j));
}

/// A local layer carries nothing further than half of the window: the state of a
/// row depends on the rows that lie within this distance.
pub proof fn local_layer_isolates<V>(
    at: At<V>,
    model: &ModernBertModel,
    w: &ModernBertLayerWeights,
    x: Tensor,
    y: Tensor,
    cos: Tensor,
    sin: Tensor,
    s: int,
    j: int,
)
    requires
        lawful(at),
        model.config.addressable(s),
        w.sized(&model.config),
        has(x, seq![1, s, model.config.hidden_size as int]),
        has(y, seq![1, s, model.config.hidden_size as int]),
        has(cos, seq![s, model.config.width()]),
        has(sin, seq![s, model.config.width()]),
        0 <= j < s,
        agrees_near(at, x, y, j, model.config.local_attention as int / 2, s),
    ensures
        same(
            at,
            layer_value(&model.config, w, x, cos, sin, Some(model.local_mask(s))),
            layer_value(&model.config, w, y, cos, sin, Some(model.local_mask(s))),
            1,
            j,
        ),
{
    broadcast use extents;

    let cfg = &model.config;
    let h = cfg.hidden_size as int;
    let heads = cfg.num_attention_heads as int;
    let d = cfg.width();
    let eps = cfg.layer_norm_eps;
    let half = cfg.local_attention as int / 2;
    let data = local_data(cfg.local_attention, s);
    let mask = square_mask(data, s);
    let scale = inv_sqrt64(d as usize);
    assert(mask == model.local_mask(s));
    local_mask_has(model, s);
    assert(h * h <= h * (3 * h)) by (nonlinear_arith)
        requires
            h >= 1,
    ;
    let (nx, ny) = match w.attn_norm_gain {
        None => (x, y),
        Some(g) => (normed(x, g@, h, eps), normed(y, g@, h, eps)),
    };
    assert(same(at, x, y, 1, j));
    if let Some(g) = w.attn_norm_gain {
        norm_agrees(at, x, y, g@, h, eps, s, j);
    }
    let (fx, fy) = (nx.linear(w.wqkv@, h, 3 * h), ny.linear(w.wqkv@, h, 3 * h));
    let qx = fx.narrow(2, 0, h).split_heads(heads, d).rope_with_tables(cos, sin);
    let qy = fy.narrow(2, 0, h).split_heads(heads, d).rope_with_tables(cos, sin);
    let kx = fx.narrow(2, h, h).split_heads(heads, d).rope_with_tables(cos, sin);
    let ky = fy.narrow(2, h, h).split_heads(heads, d).rope_with_tables(cos, sin);
    let vx = fx.narrow(2, 2 * h, h).split_heads(heads, d);
    let vy = fy.narrow(2, 2 * h, h).split_heads(heads, d);
    thirds_agree(at, nx, ny, w.wqkv@, cfg, cos, sin, s, j);
    assert forall|i: int| 0 <= i < s && #[trigger] sees(data, s, j, i) implies same(at, kx, ky, 2, i)
        && same(at, vx, vy, 2, i) by {
        local_mask_rows(cfg.local_attention, s, j, i);
        assert(!too_far(half, i, j));
        assert(same(at, x, y, 1, i));
        if let Some(g) = w.attn_norm_gain {
            norm_agrees(at, x, y, g@, h, eps, s, i);
        }
        thirds_agree(at, nx, ny, w.wqkv@, cfg, cos, sin, s, i);
    }
    local_mask_rows(cfg.local_attention, s, j, j);
    assert(sees(data, s, j, j));
    assert(seen_alike(at, qx, kx, vx, qy, ky, vy, data, s, j));
    attention_has(cfg, w, nx, cos, sin, mask, s);
    attention_has(cfg, w, ny, cos, sin, mask, s);
    let cx = mixed_heads(qx, kx, vx, Some(scale), mask);
    let cy = mixed_heads(qy, ky, vy, Some(scale), mask);
    assert(same(at, cx, cy, 2, j));
    assert(same(at, cx.merge_heads(), cy.merge_heads(), 1, j));
    let (ax, ay) = (cx.merge_heads().linear(w.wo@, h, h), cy.merge_heads().linear(w.wo@, h, h));
    assert(same(at, ax, ay, 1, j));
    let (zx, zy) = (x.add(ax), y.add(ay));
    assert(same(at, zx, zy, 1, j));
    norm_agrees(at, zx, zy, w.mlp_norm_gain@, h, eps, s, j);
    let (mx, my) = (normed(zx, w.mlp_norm_gain@, h, eps), normed(zy, w.mlp_norm_gain@, h, eps));
    geglu_agrees(at, cfg, w, mx, my, s, j);
    assert(same(at, zx.add(geglu_value(cfg, w, mx)), zy.add(geglu_value(cfg, w, my)), 1, j));
}

/// The steps of attention under a mask succeed.
pub proof fn attention_has(
    cfg: &ModernBertConfig,
    w: &ModernBertLayerWeights,
    n: Tensor,
    cos: Tensor,
    sin: Tensor,
    mask: Tensor,
    s: int,
)
    requires
        cfg.addressable(s),
        w.sized(cfg),
        has(n, seq![1, s, cfg.hidden_size as int]),
        has(cos, seq![s, cfg.width()]),
        has(sin, seq![s, cfg.width()]),
        has(mask, seq![1, 1, s, s]),
    ensures
        ({
            let h = cfg.hidden_size as int;
            let heads = cfg.num_attention_heads as int;
            let d = cfg.width();
            let f = n.linear(w.wqkv@, h, 3 * h);
            let q = f.narrow(2, 0, h).split_heads(heads, d).rope_with_tables(cos, sin);
            let k = f.narrow(2, h, h).split_heads(heads, d).rope_with_tables(cos, sin);
            let v = f.narrow(2, 2 * h, h).split_heads(heads, d);
            let c = mixed_heads(q, k, v, Some(inv_sqrt64(d as usize)), mask);
            &&& has(c, seq![1, heads, s, d])
            &&& has(c.merge_heads(), seq![1, s, h])
            &&& has(c.merge_heads().linear(w.wo@, h, h), seq![1, s, h])
            &&& attention_value(cfg, w, n, cos, sin, Some(mask)) == c.merge_heads().linear(w.wo@, h, h)
        }),
{
    broadcast use extents;

    let h = cfg.hidden_size as int;
    let heads = cfg.num_attention_heads as int;
    let d = cfg.width();
    assert(h * h <= h * (3 * h)) by (nonlinear_arith)
        requires
            h >= 1,
    ;
    let f = n.linear(w.wqkv@, h, 3 * h);
    let q = f.narrow(2, 0, h).split_heads(heads, d).rope_with_tables(cos, sin);
    let k = f.narrow(2, h, h).split_heads(heads, d).rope_with_tables(cos, sin);
    let scores = q.matmul(k.transpose()).mul_scalar(inv_sqrt64(d as usize));
    assert(has(scores, seq![1, heads, s, s]));
    assert(lies_under(mask.dims, scores.dims));
    broadcast_add_under(scores, mask);
}

/// What layers `from .. to` make of the states `x` of `s` tokens, without a mask
/// of the caller.
pub open spec fn stretch_value(model: &ModernBertModel, x: Tensor, from: int, to: int, s: int) -> Tensor
    decreases to - from,
{
    if to <= from {
        x
    } else {
        layer_value(
            &model.config,
            &model.weights.layers@[to - 1],
            stretch_value(model, x, from, to - 1, s),
            Tensor::rope_cos(model.theta(to - 1), 0, s, model.config.width()),
            Tensor::rope_sin(model.theta(to - 1), 0, s, model.config.width()),
            model.layer_mask(s, to - 1, None),
        )
    }
}

/// A stretch of layers leads from the states before it to those after it.
pub proof fn stretch_continues(model: &ModernBertModel, tokens: Seq<u32>, from: int, to: int)
    requires
        0 <= from <= to,
    ensures
        model.states(tokens, None, to) == stretch_value(
            model,
            model.states(tokens, None, from),
            from,
            to,
            tokens.len() as int,
        ),
    decreases to - from,
{
    if from < to {
        stretch_continues(model, tokens, from, to - 1);
    }
}

/// A stretch of local layers carries nothing further than half of the window for
/// each of its layers.
pub proof fn local_layers_isolate<V>(
    at: At<V>,
    model: &ModernBertModel,
    x: Tensor,
    y: Tensor,
    from: int,
    to: int,
    s: int,
    j: int,
)
    requires
        lawful(at),
        model.config.addressable(s),
        model.weights.sized(&model.config),
        0 <= from <= to <= model.weights.layers@.len(),
        forall|i: int| from <= i < to ==> #[trigger] model.is_local(i),
        has(x, seq![1, s, model.config.hidden_size as int]),
        has(y, seq![1, s, model.config.hidden_size as int]),
        0 <= j < s,
        agrees_near(at, x, y, j, (to - from) * (model.config.local_attention as int / 2), s),
    ensures
        same(at, stretch_value(model, x, from, to, s), stretch_value(model, y, from, to, s), 1, j),
    decreases to - from,
{
    let half = model.config.local_attention as int / 2;
    let n = to - from;
    if n == 0 {
        assert(n * half == 0) by (nonlinear_arith)
            requires
                n == 0,
        ;
        assert(!too_far(n * half, j, j));
    } else {
        let a = stretch_value(model, x, from, to - 1, s);
        let b = stretch_value(model, y, from, to - 1, s);
        assert(n * half == (n - 1) * half + half) by (nonlinear_arith);
        assert forall|i: int| 0 <= i < s && !too_far(half, i, j) implies #[trigger] same(at, a, b, 1, i) by {
            assert forall|k: int| 0 <= k < s && !too_far((n - 1) * half, k, i) implies #[trigger] same(
                at,
                x,
                y,
                1,
                k,
            ) by {
                assert(!too_far(n * half, k, j));
            }
            local_layers_isolate(at, model, x, y, from, to - 1, s, i);
        }
        stretch_has(model, x, from, to - 1, s);
        stretch_has(model, y, from, to - 1, s);
        assert(model.is_local(to - 1));
        broadcast use extents;

        local_layer_isolates(
            at,
            model,
            &model.weights.layers@[to - 1],
            a,
            b,
            Tensor::rope_cos(model.theta(to - 1), 0, s, model.config.width()),
            Tensor::rope_sin(model.theta(to - 1), 0, s, model.config.width()),
            s,
            j,
        );
    }
}

proof fn stretch_has(model: &ModernBertModel, x: Tensor, from: int, to: int, s: int)
    requires
        model.config.addressable(s),
        model.weights.sized(&model.config),
        0 <= from <= to <= model.weights.layers@.len(),
        has(x, seq![1, s, model.config.hidden_size as int]),
    ensures
        has(stretch_value(model, x, from, to, s), seq![1, s, model.config.hidden_size as int]),
    decreases to - from,
{
    broadcast use extents;

    if from < to {
        stretch_has(model, x, from, to - 1, s);
        local_mask_has(model, s);
        layer_has(
            &model.config,
            &model.weights.layers@[to - 1],
            stretch_value(model, x, from, to - 1, s),
            Tensor::rope_cos(model.theta(to - 1), 0, s, model.config.width()),
            Tensor::rope_sin(model.theta(to - 1), 0, s, model.config.width()),
            model.layer_mask(s, to - 1, None),
            s,
        );
    }
}

/// The states captured after the last layer are those that the final
/// normalisation is applied to: `forward` gives the captured states, normalised
/// over the features with the final gain and no bias.
pub proof fn forward_norms_captured_states(
    model: &ModernBertModel,
    tokens: Seq<u32>,
    mask: Option<Tensor>,
    captured: Tensor,
    r: Result<LazyTensor, Error>,
)
    requires
        model.weights.layers@.len() >= 1,
        captured == model.states(tokens, mask, (model.weights.layers@.len() - 1) + 1),
        outcome(r, model.value(tokens, mask)),
    ensures
        outcome(
            r,
            captured.layer_norm(
                model.weights.final_norm_gain@,
                filled(zero(), model.config.hidden_size as int),
                model.config.hidden_size as int,
                model.config.layer_norm_eps,
            ),
        ),
        model.config.addressable(tokens.len() as int) && model.weights.sized(&model.config) && (
        mask matches Some(m) ==> has(m, seq![1, 1, tokens.len() as int, tokens.len() as int])) ==> (
        r matches Ok(y) && has(y@, seq![1, tokens.len() as int, model.config.hidden_size as int])),
{
    if model.config.addressable(tokens.len() as int) && model.weights.sized(&model.config) && (
    mask matches Some(m) ==> has(m, seq![1, 1, tokens.len() as int, tokens.len() as int])) {
        forward_succeeds(model, tokens, mask);
    }
}

} // verus!
