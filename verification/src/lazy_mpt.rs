//! MPT: a causal decoder whose attention has a linear position penalty.
//!
//! Head `h` adds `slope[h] * (j - i)` to the score of query `i` for key `j`:
//! nothing for the token itself, and less the farther back a token lies.

use crate::causality::{
    attention_joins_alike, begin_alike, embeddings_agree, heads_map_alike, heads_repeat_alike,
    layer_norm_agrees, rows_map_alike, sum_agrees,
};
use crate::checkpoint::{
    decimal, join, loaded_matrix, loaded_rows, numbered, transpose_matrix, transpose_rows,
    transposed, Checkpoint, Loader,
};
use crate::common::{agree, attend_masked, heads_are_shared, masked_attention, masked_attention_has};
use crate::error::{Error, Fault, LoadError};
use crate::evaluation::{agrees, lawful, look_back, mask_at, rows_look_back, same, At};
use crate::extents::{constant_has, embed_has, extents, has, lies_under, products};
use crate::lazy::{outcome, LazyTensor, Tensor, WeightStorage};
use crate::scalar::{
    div32, fill, filled, inv_sqrt64, mul32, neg_inf, one, pow32, sub32, zero, Data, Precision,
    Scalar,
};
use std::sync::Arc;
use vstd::prelude::*;

verus! {

#[derive(Debug, Clone)]
pub struct MptConfig {
    pub d_model: usize,
    pub n_heads: usize,
    pub n_layers: usize,
    pub expansion_ratio: usize,
    pub max_seq_len: usize,
    pub vocab_size: usize,
    pub kv_n_heads: usize,
    pub alibi_bias_max: usize,
    pub layer_norm_eps: Scalar,
}

/// The least of `p`, `2 p`, `4 p`, ... that is at least `n`.
pub open spec fn doubled_to(n: int, p: int) -> int
    decreases
            if p < n {
                n - p
            } else {
                0
            },
{
    if p >= n || p <= 0 {
        p
    } else {
        doubled_to(n, 2 * p)
    }
}

/// Slope number `v` of `n2`: `1 / 2^(v * bias_max / n2)`.
pub open spec fn slope(v: int, bias_max: int, n2: int) -> Scalar {
    div32(
        one(),
        pow32(
            Scalar::F32(0x4000_0000),
            div32(
                Scalar::Nat(Precision::Single, (v * bias_max) as usize),
                Scalar::Nat(Precision::Single, n2 as usize),
            ),
        ),
    )
}

impl MptConfig {
    /// Width of a head.
    pub open spec fn width(&self) -> int {
        self.d_model as int / self.n_heads as int
    }

    /// Width of the keys, and of the values.
    pub open spec fn kv(&self) -> int {
        self.kv_n_heads * self.width()
    }

    /// Width inside the feed-forward part.
    pub open spec fn ffn(&self) -> int {
        self.d_model * self.expansion_ratio
    }

    /// The number of heads, rounded up to a power of two.
    pub open spec fn heads_pow2(&self) -> int {
        doubled_to(self.n_heads as int, 1)
    }

    /// The slopes of the heads. Where the number of heads is no power of two,
    /// every second slope of the next power of two comes first, then the others.
    pub open spec fn slopes(&self) -> Seq<Scalar> {
        let n = self.n_heads as int;
        let n2 = self.heads_pow2();
        let b = self.alibi_bias_max as int;
        Seq::new(
            n as nat,
            |i: int| if n2 == n {
                slope(i + 1, b, n2)
            } else if i < n2 / 2 {
                slope(2 * i + 2, b, n2)
            } else {
                slope(2 * (i - n2 / 2) + 1, b, n2)
            },
        )
    }

    /// The slopes can be numbered.
    pub open spec fn sloped(&self) -> bool {
        &&& 2 * self.n_heads <= usize::MAX
        &&& 2 * self.n_heads * self.alibi_bias_max <= usize::MAX
    }

    /// There are heads of both sorts, and the widths can be counted.
    pub open spec fn countable(&self) -> bool {
        &&& self.sloped()
        &&& self.n_heads > 0
        &&& self.kv_n_heads > 0
        &&& self.kv() <= usize::MAX
        &&& self.ffn() <= usize::MAX
    }

    /// The stored tensors can be counted.
    pub open spec fn loadable(&self) -> bool {
        let d = self.d_model as int;
        &&& self.n_heads > 0
        &&& self.kv() <= usize::MAX
        &&& self.ffn() <= usize::MAX
        &&& self.qkv() <= usize::MAX
        &&& self.qkv() * d <= usize::MAX
        &&& d * d <= usize::MAX
        &&& self.ffn() * d <= usize::MAX
        &&& d * self.ffn() <= usize::MAX
        &&& self.vocab_size * d <= usize::MAX
    }

    /// Width of the queries.
    pub open spec fn q(&self) -> int {
        self.n_heads * self.width()
    }

    /// Width of queries, keys and values side by side.
    pub open spec fn qkv(&self) -> int {
        self.q() + 2 * self.kv()
    }

    /// Width of a head.
    pub fn head_dim(&self) -> (r: usize)
        requires
            self.n_heads > 0,
        ensures
            r == self.width(),
    {
        self.d_model / self.n_heads
    }

    /// Width inside the feed-forward part.
    pub fn ffn_dim(&self) -> (r: usize)
        requires
            self.ffn() <= usize::MAX,
        ensures
            r == self.ffn(),
    {
        self.d_model * self.expansion_ratio
    }

    /// The `replit-code-v1.5-3b` sizes.
    pub fn replit_code_v1_5_3b() -> (r: Self)
        ensures
            r == (MptConfig {
                d_model: 3072,
                n_heads: 24,
                n_layers: 32,
                expansion_ratio: 4,
                max_seq_len: 4096,
                vocab_size: 32_768,
                kv_n_heads: 8,
                alibi_bias_max: 8,
                layer_norm_eps: Scalar::F64(0x3EE4_F8B5_88E3_68F1),
            }),
            r.countable(),
            r.loadable(),
    {
        assert(3072int / 24 == 128) by (nonlinear_arith);
        MptConfig {
            d_model: 3072,
            n_heads: 24,
            n_layers: 32,
            expansion_ratio: 4,
            max_seq_len: 4096,
            vocab_size: 32_768,
            kv_n_heads: 8,
            alibi_bias_max: 8,
            layer_norm_eps: Scalar::F64(0x3EE4_F8B5_88E3_68F1),
        }
    }

    /// The slopes of the heads.
    pub fn alibi_slopes(&self) -> (r: Vec<Scalar>)
        requires
            self.sloped(),
        ensures
            r@ == self.slopes(),
    {
        let n: usize = self.n_heads;
        let mut n2: usize = 1;
        while n2 < n
            invariant
                0 < n2,
                n2 == 1 || n2 < 2 * n,
                2 * n <= usize::MAX,
                doubled_to(n as int, n2 as int) == doubled_to(n as int, 1),
            decreases
                    if n2 < n {
                        n - n2
                    } else {
                        0
                    },
        {
            n2 = n2 * 2;
        }
        assert(n2 == self.heads_pow2());
        let b: usize = self.alibi_bias_max;
        let mut out: Vec<Scalar> = Vec::new();
        let mut i: usize = 0;
        while i < n
            invariant
                self.sloped(),
                n == self.n_heads,
                b == self.alibi_bias_max,
                n2 == self.heads_pow2(),
                n <= n2,
                n2 == 1 || n2 < 2 * n,
                i <= n,
                out@.len() == i,
                forall|j: int| 0 <= j < i ==> out@[j] == self.slopes()[j],
            decreases n - i,
        {
            let v: usize = if n2 == n {
                i + 1
            } else if i < n2 / 2 {
                2 * i + 2
            } else {
                2 * (i - n2 / 2) + 1
            };
            assert(v <= 2 * n);
            assert(v * b <= 2 * n * b) by (nonlinear_arith)
                requires
                    v <= 2 * n,
                    b >= 0,
            ;
            assert(v * b >= 0) by (nonlinear_arith);
            let x = Scalar::Nat(Precision::Single, v * b).div32(Scalar::Nat(Precision::Single, n2));
            out.push(Scalar::F32(0x3F80_0000).div32(Scalar::F32(0x4000_0000).pow32(x)));
            i = i + 1;
        }
        assert(out@ =~= self.slopes());
        out
    }
}

/// The number of heads is rounded up to a power of two by doubling: a number of
/// heads that is a power of two stays.
pub proof fn power_of_two_stays(k: nat, p: int)
    requires
        p == vstd::arithmetic::power2::pow2(k),
    ensures
        doubled_to(p, 1) == p,
{
    doubled_reaches(k, 0);
    vstd::arithmetic::power2::lemma2_to64();
}

proof fn doubled_reaches(k: nat, j: nat)
    requires
        j <= k,
    ensures
        doubled_to(
            vstd::arithmetic::power2::pow2(k) as int,
            vstd::arithmetic::power2::pow2(j) as int,
        ) == vstd::arithmetic::power2::pow2(k),
    decreases k - j,
{
    vstd::arithmetic::power2::lemma_pow2_pos(j);
    if j < k {
        vstd::arithmetic::power2::lemma_pow2_strictly_increases(j, k);
        vstd::arithmetic::power2::lemma_pow2_unfold(j + 1);
        doubled_reaches(k, j + 1);
    }
}

/// One element of the mask: hidden ahead, else the penalty of the distance.
pub open spec fn alibi_value(s: Scalar, i: int, j: int) -> Scalar {
    if j > i {
        neg_inf()
    } else {
        mul32(
            s,
            sub32(
                Scalar::Nat(Precision::Single, j as usize),
                Scalar::Nat(Precision::Single, i as usize),
            ),
        )
    }
}

/// The mask `[heads, seq, seq]`: element `(h, i, j)` stands at
/// `(h * seq + i) * seq + j`.
pub open spec fn alibi_data(seq: int, slopes: Seq<Scalar>) -> Seq<Scalar> {
    Seq::new(
        (slopes.len() * seq * seq) as nat,
        |k: int| alibi_value(slopes[k / seq / seq], k / seq % seq, k % seq),
    )
}

/// Element `(h, i, j)` of the mask.
pub proof fn alibi_mask_rows(seq: int, slopes: Seq<Scalar>, h: int, i: int, j: int)
    requires
        0 <= h < slopes.len(),
        0 <= i < seq,
        0 <= j < seq,
    ensures
        0 <= (h * seq + i) * seq + j < alibi_data(seq, slopes).len(),
        alibi_data(seq, slopes)[(h * seq + i) * seq + j] == alibi_value(slopes[h], i, j),
{
    let r = h * seq + i;
    assert(0 <= r < slopes.len() * seq) by (nonlinear_arith)
        requires
            r == h * seq + i,
            0 <= h < slopes.len(),
            0 <= i < seq,
    ;
    assert(0 <= r * seq + j < slopes.len() * seq * seq) by (nonlinear_arith)
        requires
            0 <= r < slopes.len() * seq,
            0 <= j < seq,
    ;
    vstd::arithmetic::div_mod::lemma_fundamental_div_mod_converse(r * seq + j, seq, r, j);
    vstd::arithmetic::div_mod::lemma_fundamental_div_mod_converse(r, seq, h, i);
}

/// Builds the causal mask with position penalties, `[heads, seq, seq]`.
pub fn build_alibi_causal_mask(seq: usize, slopes: &Vec<Scalar>) -> (r: Vec<Scalar>)
    requires
        slopes@.len() * seq <= usize::MAX,
        slopes@.len() * seq * seq <= usize::MAX,
    ensures
        r@ == alibi_data(seq as int, slopes@),
{
    let n: usize = slopes.len() * seq * seq;
    let mut out: Vec<Scalar> = Vec::new();
    let mut k: usize = 0;
    while k < n
        invariant
            k <= n,
            n == slopes@.len() * seq * seq,
            out@.len() == k,
            forall|m: int| 0 <= m < k ==> out@[m] == alibi_data(seq as int, slopes@)[m],
        decreases n - k,
    {
        assert(seq > 0 && k / seq / seq < slopes@.len()) by {
            assert(seq > 0) by (nonlinear_arith)
                requires
                    0 < slopes@.len() * seq * seq,
                    seq >= 0,
            ;
            assert(k / seq < slopes@.len() * seq) by (nonlinear_arith)
                requires
                    0 <= k < slopes@.len() * seq * seq,
                    seq > 0,
            ;
            let q = k as int / seq as int;
            assert(q / (seq as int) < slopes@.len()) by (nonlinear_arith)
                requires
                    q < slopes@.len() * seq,
                    seq > 0,
            ;
        }
        let h: usize = k / seq / seq;
        let i: usize = k / seq % seq;
        let j: usize = k % seq;
        out.push(
            if j > i {
                Scalar::F32(0xFF80_0000)
            } else {
                slopes[h].clone().mul32(
                    Scalar::Nat(Precision::Single, j).sub32(Scalar::Nat(Precision::Single, i)),
                )
            },
        );
        k = k + 1;
    }
    assert(out@ =~= alibi_data(seq as int, slopes@));
    out
}

#[derive(Debug, Clone)]
pub struct MptLayerWeights {
    pub norm1_gain: Data,
    pub norm1_bias: Data,
    pub norm2_gain: Data,
    pub norm2_bias: Data,
    pub attn_q: WeightStorage,
    pub attn_k: WeightStorage,
    pub attn_v: WeightStorage,
    pub attn_o: WeightStorage,
    /// `[d_model, ffn_dim]`.
    pub mlp_up: WeightStorage,
    /// `[ffn_dim, d_model]`.
    pub mlp_down: WeightStorage,
}

#[derive(Debug, Clone)]
pub struct MptWeights {
    pub token_embedding: Data,
    pub layers: Vec<MptLayerWeights>,
    pub final_ln_gain: Data,
    pub final_ln_bias: Data,
    pub output: WeightStorage,
}

#[derive(Debug, Clone)]
pub struct MptModel {
    pub config: MptConfig,
    pub weights: MptWeights,
}

/// Normalisation over as many features as the gain has.
pub open spec fn normed(x: Tensor, gain: Seq<Scalar>, bias: Seq<Scalar>, eps: Scalar) -> Tensor {
    x.layer_norm(gain, bias, gain.len() as int, eps)
}

/// One decoder layer.
pub open spec fn layer_value(cfg: &MptConfig, w: &MptLayerWeights, x: Tensor, mask: Tensor) -> Tensor {
    let m = cfg.d_model as int;
    let heads = cfg.n_heads as int;
    let kvh = cfg.kv_n_heads as int;
    let d = cfg.width();
    let rep = heads / kvh;
    let n = normed(x, w.norm1_gain@, w.norm1_bias@, cfg.layer_norm_eps);
    let q = n.linear(w.attn_q@, m, m).split_heads(heads, d);
    let k = n.linear(w.attn_k@, m, cfg.kv()).split_heads(kvh, d);
    let v = n.linear(w.attn_v@, m, cfg.kv()).split_heads(kvh, d);
    let ctx = masked_attention(
        q,
        k.repeat_interleave(1, rep),
        v.repeat_interleave(1, rep),
        inv_sqrt64(d as usize),
        mask,
    );
    let h1 = x.add(ctx.merge_heads().linear(w.attn_o@, m, m));
    h1.add(
        normed(h1, w.norm2_gain@, w.norm2_bias@, cfg.layer_norm_eps).linear(
            w.mlp_up@,
            m,
            cfg.ffn(),
        ).gelu_erf().linear(w.mlp_down@, cfg.ffn(), m),
    )
}

/// The first `n` layers, one after the other.
pub open spec fn layers_value(
    cfg: &MptConfig,
    layers: Seq<MptLayerWeights>,
    n: int,
    x: Tensor,
    mask: Tensor,
) -> Tensor
    decreases n,
{
    if n <= 0 {
        x
    } else {
        layer_value(cfg, &layers[n - 1], layers_value(cfg, layers, n - 1, x, mask), mask)
    }
}

impl MptModel {
    /// Embeddings `(1, seq, d_model)` of the tokens.
    pub open spec fn embedded(&self, tokens: Seq<u32>) -> Tensor {
        Tensor::embed_tokens(
            self.weights.token_embedding@,
            self.config.vocab_size as int,
            self.config.d_model as int,
            tokens,
        )
    }

    /// The embeddings, unless the model cannot take them.
    pub open spec fn admitted(&self, embeds: Tensor) -> Tensor {
        let cfg = &self.config;
        if embeds.rank() != 3 || embeds.dim(0) != 1 || embeds.dim(2) != cfg.d_model {
            Tensor::invalid(Error::InputShape)
        } else if embeds.dim(1) == 0 {
            Tensor::invalid(Error::EmptySequence)
        } else if cfg.q() != cfg.d_model {
            Tensor::invalid(Error::HeadWidth)
        } else if cfg.n_heads % cfg.kv_n_heads != 0 {
            Tensor::invalid(Error::KeyHeads)
        } else {
            embeds
        }
    }

    /// Final hidden states of the embeddings.
    pub open spec fn hidden(&self, embeds: Tensor) -> Tensor {
        let cfg = &self.config;
        let w = &self.weights;
        let seq = embeds.dim(1);
        if embeds.bad() {
            embeds
        } else if self.admitted(embeds).bad() {
            self.admitted(embeds)
        } else {
            normed(
                layers_value(
                    cfg,
                    w.layers@,
                    w.layers@.len() as int,
                    embeds,
                    Tensor::constant(
                        alibi_data(seq, cfg.slopes()),
                        seq![1, cfg.n_heads as int, seq, seq],
                    ),
                ),
                w.final_ln_gain@,
                w.final_ln_bias@,
                cfg.layer_norm_eps,
            )
        }
    }

    /// Logits of the embeddings.
    pub open spec fn logits(&self, embeds: Tensor) -> Tensor {
        self.hidden(embeds).linear(
            self.weights.output@,
            self.config.d_model as int,
            self.config.vocab_size as int,
        )
    }

    /// What every run asks of the model and of the sequence length.
    pub open spec fn runnable(&self, seq: int) -> bool {
        &&& self.config.countable()
        &&& self.config.n_heads * seq <= usize::MAX
        &&& self.config.n_heads * seq * seq <= usize::MAX
    }

    /// Logits `(1, seq, vocab_size)` of the tokens.
    pub fn forward(&self, tokens: &[u32]) -> (r: Result<LazyTensor, Error>)
        requires
            self.runnable(tokens@.len() as int),
            tokens@.len() > 0,
        ensures
            outcome(r, self.logits(self.embedded(tokens@))),
    {
        proof {
            self.embedded_length(tokens@);
        }
        let h = self.run_backbone_embeds(&self.embed(tokens));
        self.apply_lm_head(&h).finish()
    }

    /// Final hidden states `(1, seq, d_model)` of the tokens.
    pub fn forward_hidden(&self, tokens: &[u32]) -> (r: Result<LazyTensor, Error>)
        requires
            self.runnable(tokens@.len() as int),
            tokens@.len() > 0,
        ensures
            outcome(r, self.hidden(self.embedded(tokens@))),
    {
        proof {
            self.embedded_length(tokens@);
        }
        self.run_backbone_embeds(&self.embed(tokens)).finish()
    }

    /// Logits of embeddings `(1, seq, d_model)`.
    pub fn forward_embeds(&self, embeds: &LazyTensor) -> (r: Result<LazyTensor, Error>)
        requires
            self.runnable(embeds@.dim(1)),
        ensures
            outcome(r, self.logits(embeds@)),
    {
        let h = self.run_backbone_embeds(embeds);
        self.apply_lm_head(&h).finish()
    }

    /// Final hidden states of embeddings `(1, seq, d_model)`.
    pub fn forward_hidden_embeds(&self, embeds: &LazyTensor) -> (r: Result<LazyTensor, Error>)
        requires
            self.runnable(embeds@.dim(1)),
        ensures
            outcome(r, self.hidden(embeds@)),
    {
        self.run_backbone_embeds(embeds).finish()
    }

    /// Embeddings `(1, seq, d_model)` of the tokens, to be used together with
    /// `anchor`.
    pub fn embed_tokens_anchored(&self, anchor: &LazyTensor, tokens: &[u32]) -> (r: Result<
        LazyTensor,
        Error,
    >)
        ensures
            outcome(r, self.embedded(tokens@)),
    {
        self.embed(tokens).finish()
    }

    fn embed(&self, tokens: &[u32]) -> (r: LazyTensor)
        ensures
            r@ == self.embedded(tokens@),
    {
        LazyTensor::embed_tokens(
            &self.weights.token_embedding,
            self.config.vocab_size,
            self.config.d_model,
            tokens,
        )
    }

    /// The embeddings have one position for each token, or none where they could
    /// not be built.
    proof fn embedded_length(&self, tokens: Seq<u32>)
        requires
            self.runnable(tokens.len() as int),
        ensures
            self.runnable(self.embedded(tokens).dim(1)),
    {
        crate::common::embedding_extents(
            self.weights.token_embedding@,
            self.config.vocab_size as int,
            self.config.d_model as int,
            tokens,
        );
        assert(self.config.n_heads * 0 == 0);
        assert(self.config.n_heads * 0 * 0 == 0);
    }

    fn apply_lm_head(&self, h_norm: &LazyTensor) -> (r: LazyTensor)
        ensures
            r@ == h_norm@.linear(
                self.weights.output@,
                self.config.d_model as int,
                self.config.vocab_size as int,
            ),
    {
        self.weights.output.apply_linear(h_norm, self.config.d_model, self.config.vocab_size)
    }

    fn run_backbone_embeds(&self, embeds: &LazyTensor) -> (r: LazyTensor)
        requires
            self.runnable(embeds@.dim(1)),
        ensures
            r@ == self.hidden(embeds@),
    {
        let cfg = &self.config;
        let weights = &self.weights;
        if embeds.failure().is_some() {
            return embeds.clone();
        }
        if embeds.rank() != 3 || embeds.dim(0) != 1 || embeds.dim(2) != cfg.d_model {
            return LazyTensor::invalid(Error::InputShape);
        }
        let seq: usize = embeds.dim(1);
        if seq == 0 {
            return LazyTensor::invalid(Error::EmptySequence);
        }
        proof {
            heads_fit(cfg);
        }
        if cfg.n_heads * cfg.head_dim() != cfg.d_model {
            return LazyTensor::invalid(Error::HeadWidth);
        }
        if cfg.n_heads % cfg.kv_n_heads != 0 {
            return LazyTensor::invalid(Error::KeyHeads);
        }
        let mut h = embeds.clone();
        let slopes = cfg.alibi_slopes();
        let mask = LazyTensor::const4(
            &Arc::new(build_alibi_causal_mask(seq, &slopes)),
            1,
            cfg.n_heads,
            seq,
            seq,
        );
        let mut i: usize = 0;
        while i < weights.layers.len()
            invariant
                cfg == &self.config,
                weights == &self.weights,
                cfg.countable(),
                i <= weights.layers@.len(),
                h@ == layers_value(cfg, weights.layers@, i as int, embeds@, mask@),
            decreases weights.layers@.len() - i,
        {
            h = self.apply_layer(&h, &weights.layers[i], &mask);
            i = i + 1;
        }
        h.layer_norm(
            &weights.final_ln_gain,
            &weights.final_ln_bias,
            weights.final_ln_gain.len(),
            &cfg.layer_norm_eps,
        )
    }

    fn apply_layer(&self, x: &LazyTensor, layer: &MptLayerWeights, mask: &LazyTensor) -> (r: LazyTensor)
        requires
            self.config.countable(),
        ensures
            r@ == layer_value(&self.config, layer, x@, mask@),
    {
        let cfg = &self.config;
        let d: usize = cfg.d_model;
        let head_dim: usize = cfg.head_dim();
        let kv_dim: usize = cfg.kv_n_heads * head_dim;
        let x_norm = x.layer_norm(
            &layer.norm1_gain,
            &layer.norm1_bias,
            layer.norm1_gain.len(),
            &cfg.layer_norm_eps,
        );
        let q = layer.attn_q.apply_linear(&x_norm, d, d).split_heads(cfg.n_heads, head_dim);
        let k = layer.attn_k.apply_linear(&x_norm, d, kv_dim).split_heads(cfg.kv_n_heads, head_dim);
        let v = layer.attn_v.apply_linear(&x_norm, d, kv_dim).split_heads(cfg.kv_n_heads, head_dim);
        let n_rep: usize = cfg.n_heads / cfg.kv_n_heads;
        let k_full = k.repeat_interleave(1, n_rep);
        let v_full = v.repeat_interleave(1, n_rep);
        let attn_v = attend_masked(&q, &k_full, &v_full, &Scalar::inv_sqrt64(head_dim), mask);
        let h1 = x.add(&layer.attn_o.apply_linear(&attn_v.merge_heads(), d, d));
        let h1_norm = h1.layer_norm(
            &layer.norm2_gain,
            &layer.norm2_bias,
            layer.norm2_gain.len(),
            &cfg.layer_norm_eps,
        );
        let mid = layer.mlp_up.apply_linear(&h1_norm, d, cfg.ffn_dim()).gelu_erf();
        h1.add(&layer.mlp_down.apply_linear(&mid, cfg.ffn_dim(), d))
    }
}

proof fn heads_fit(cfg: &MptConfig)
    requires
        cfg.n_heads > 0,
    ensures
        0 <= cfg.width() <= cfg.d_model,
        0 <= cfg.q() <= cfg.d_model,
{
    let n = cfg.n_heads as int;
    let d = cfg.d_model as int;
    assert(0 <= d / n <= d && 0 <= n * (d / n) <= d) by (nonlinear_arith)
        requires
            n > 0,
            d >= 0,
    ;
}

/// Name prefix of layer `i`.
pub open spec fn layer_prefix(i: int) -> Seq<char> {
    "transformer.blocks."@ + decimal(i)
}

/// The failure, after an earlier one, to load the first `n` layers.
pub open spec fn layers_need(st: &Checkpoint, cfg: &MptConfig, e: Option<Fault>, n: int) -> Option<Fault>
    decreases n,
{
    if n <= 0 {
        e
    } else {
        let d = cfg.d_model as int;
        let p = layer_prefix(n - 1);
        let e = layers_need(st, cfg, e, n - 1);
        let e = st.need(e, p + ".norm_1.weight"@);
        let e = st.need(e, p + ".norm_2.weight"@);
        let e = st.need_len(e, p + ".attn.Wqkv.weight"@, cfg.qkv() * d);
        let e = st.need_len(e, p + ".attn.out_proj.weight"@, d * d);
        let e = st.need_len(e, p + ".ffn.up_proj.weight"@, cfg.ffn() * d);
        st.need_len(e, p + ".ffn.down_proj.weight"@, d * cfg.ffn())
    }
}

/// A stored bias, or `n` zeros where there is none.
pub open spec fn bias_or_zero(st: &Checkpoint, name: Seq<char>, n: int) -> Seq<Scalar> {
    match st.lookup(name) {
        Some(b) => b,
        None => filled(zero(), n),
    }
}

fn load_bias_or_zero(st: &Checkpoint, name: &str, n: usize) -> (r: Data)
    ensures
        r@ == bias_or_zero(st, name@, n as int),
{
    match st.get(name) {
        Some(b) => b,
        None => Arc::new(fill(&Scalar::F32(0), n)),
    }
}

/// Whether `w` is layer `i` of the checkpoint. The fused projection is split
/// into query, key and value.
pub open spec fn layer_loaded(st: &Checkpoint, cfg: &MptConfig, i: int, w: &MptLayerWeights) -> bool {
    let d = cfg.d_model as int;
    let q = cfg.q();
    let kv = cfg.kv();
    let p = layer_prefix(i);
    let fused = p + ".attn.Wqkv.weight"@;
    &&& w.norm1_gain@ == st.data(p + ".norm_1.weight"@)
    &&& w.norm1_bias@ == bias_or_zero(st, p + ".norm_1.bias"@, d)
    &&& w.norm2_gain@ == st.data(p + ".norm_2.weight"@)
    &&& w.norm2_bias@ == bias_or_zero(st, p + ".norm_2.bias"@, d)
    &&& w.attn_q@ == loaded_rows(st, fused, 0, q, q + 2 * kv, d)
    &&& w.attn_k@ == loaded_rows(st, fused, q, kv, q + 2 * kv, d)
    &&& w.attn_v@ == loaded_rows(st, fused, q + kv, kv, q + 2 * kv, d)
    &&& w.attn_o@ == loaded_matrix(st, p + ".attn.out_proj.weight"@, d, d)
    &&& w.mlp_up@ == loaded_matrix(st, p + ".ffn.up_proj.weight"@, cfg.ffn(), d)
    &&& w.mlp_down@ == loaded_matrix(st, p + ".ffn.down_proj.weight"@, d, cfg.ffn())
}

impl MptWeights {
    /// Why a checkpoint cannot be loaded.
    pub open spec fn load_failure(st: &Checkpoint, cfg: &MptConfig) -> Option<Fault> {
        let e = st.need(None, "transformer.wte.weight"@);
        let e = layers_need(st, cfg, e, cfg.n_layers as int);
        st.need(e, "transformer.norm_f.weight"@)
    }

    /// The output matrix: the stored one where it has the right size, else the
    /// transposed token embedding.
    pub open spec fn output_matrix(st: &Checkpoint, cfg: &MptConfig) -> Seq<Scalar> {
        let vocab = cfg.vocab_size as int;
        let d = cfg.d_model as int;
        let tied = st.data("transformer.wte.weight"@);
        if st.need_len(None, "lm_head.weight"@, vocab * d) is None {
            loaded_matrix(st, "lm_head.weight"@, vocab, d)
        } else if tied.len() == vocab * d {
            transposed(tied, vocab, d)
        } else {
            seq![]
        }
    }

    /// Whether these are the weights of the checkpoint. Absent biases are zero.
    pub open spec fn loaded(&self, st: &Checkpoint, cfg: &MptConfig) -> bool {
        &&& self.token_embedding@ == st.data("transformer.wte.weight"@)
        &&& self.layers@.len() == cfg.n_layers
        &&& forall|i: int|
            0 <= i < self.layers@.len() ==> layer_loaded(st, cfg, i, &#[trigger] self.layers@[i])
        &&& self.final_ln_gain@ == st.data("transformer.norm_f.weight"@)
        &&& self.final_ln_bias@ == bias_or_zero(
            st,
            "transformer.norm_f.bias"@,
            cfg.d_model as int,
        )
        &&& self.output@ == MptWeights::output_matrix(st, cfg)
    }

    fn load_layer(ld: &mut Loader, cfg: &MptConfig, i: usize) -> (r: MptLayerWeights)
        requires
            cfg.loadable(),
        ensures
            final(ld).st == old(ld).st,
            forall|e: Option<Fault>|
                old(ld).fault() == layers_need(old(ld).st, cfg, e, i as int) ==> final(ld).fault()
                    == #[trigger] layers_need(old(ld).st, cfg, e, i + 1),
            layer_loaded(old(ld).st, cfg, i as int, &r),
    {
        proof {
            heads_fit(cfg);
        }
        let d: usize = cfg.d_model;
        let q_dim: usize = cfg.n_heads * cfg.head_dim();
        let kv_dim: usize = cfg.kv_n_heads * cfg.head_dim();
        let ffn: usize = cfg.ffn_dim();
        let out_dim: usize = q_dim + 2 * kv_dim;
        let p = numbered("transformer.blocks.", i);
        let p = p.as_str();
        let norm1_gain = ld.take(join(p, ".norm_1.weight").as_str());
        let norm1_bias = load_bias_or_zero(ld.st, join(p, ".norm_1.bias").as_str(), d);
        let norm2_gain = ld.take(join(p, ".norm_2.weight").as_str());
        let norm2_bias = load_bias_or_zero(ld.st, join(p, ".norm_2.bias").as_str(), d);
        let qkv = ld.take_len(join(p, ".attn.Wqkv.weight").as_str(), out_dim * d);
        let (q, k, v) = if qkv.len() == out_dim * d {
            (
                transpose_rows(&qkv, 0, q_dim, out_dim, d),
                transpose_rows(&qkv, q_dim, kv_dim, out_dim, d),
                transpose_rows(&qkv, q_dim + kv_dim, kv_dim, out_dim, d),
            )
        } else {
            (Vec::new(), Vec::new(), Vec::new())
        };
        let attn_o = ld.take_matrix(join(p, ".attn.out_proj.weight").as_str(), d, d);
        let mlp_up = ld.take_matrix(join(p, ".ffn.up_proj.weight").as_str(), ffn, d);
        let mlp_down = ld.take_matrix(join(p, ".ffn.down_proj.weight").as_str(), d, ffn);
        MptLayerWeights {
            norm1_gain,
            norm1_bias,
            norm2_gain,
            norm2_bias,
            attn_q: WeightStorage::F32(Arc::new(q)),
            attn_k: WeightStorage::F32(Arc::new(k)),
            attn_v: WeightStorage::F32(Arc::new(v)),
            attn_o: WeightStorage::F32(attn_o),
            mlp_up: WeightStorage::F32(mlp_up),
            mlp_down: WeightStorage::F32(mlp_down),
        }
    }

    fn load_output(st: &Checkpoint, cfg: &MptConfig, tied: &Data) -> (r: Data)
        requires
            cfg.vocab_size * cfg.d_model <= usize::MAX,
            tied@ == st.data("transformer.wte.weight"@),
        ensures
            r@ == MptWeights::output_matrix(st, cfg),
    {
        let n: usize = cfg.vocab_size * cfg.d_model;
        let mut ld = Loader::new(st);
        let own = ld.take_matrix("lm_head.weight", cfg.vocab_size, cfg.d_model);
        if ld.error.is_none() {
            own
        } else if tied.len() == n {
            Arc::new(transpose_matrix(tied, cfg.vocab_size, cfg.d_model))
        } else {
            let v: Vec<Scalar> = Vec::new();
            Arc::new(v)
        }
    }

    /// Loads the weights of a checkpoint. Matrices are stored as `(out, in)`.
    ///
    /// - `transformer.wte.weight`
    /// - `transformer.blocks.{i}.norm_1.*`, `transformer.blocks.{i}.norm_2.*`
    /// - `transformer.blocks.{i}.attn.Wqkv.weight`, split into query, key, value
    /// - `transformer.blocks.{i}.attn.out_proj.weight`
    /// - `transformer.blocks.{i}.ffn.up_proj.weight`,
    ///   `transformer.blocks.{i}.ffn.down_proj.weight`
    /// - `transformer.norm_f.*`
    /// - `lm_head.weight`, else the token embedding
    pub fn load_from_mmapped(st: &Checkpoint, cfg: &MptConfig) -> (r: Result<Self, LoadError>)
        requires
            cfg.loadable(),
        ensures
            match r {
                Ok(w) => MptWeights::load_failure(st, cfg) is None && w.loaded(st, cfg),
                Err(e) => MptWeights::load_failure(st, cfg) == Some(e@),
            },
    {
        let mut ld = Loader::new(st);
        let token_embedding = ld.take("transformer.wte.weight");
        let ghost e0 = ld.fault();
        let mut layers: Vec<MptLayerWeights> = Vec::new();
        let mut i: usize = 0;
        while i < cfg.n_layers
            invariant
                cfg.loadable(),
                i <= cfg.n_layers,
                ld.st == st,
                ld.fault() == layers_need(st, cfg, e0, i as int),
                layers@.len() == i,
                forall|k: int| 0 <= k < i ==> layer_loaded(st, cfg, k, &#[trigger] layers@[k]),
            decreases cfg.n_layers - i,
        {
            let layer = MptWeights::load_layer(&mut ld, cfg, i);
            assert(ld.fault() == layers_need(st, cfg, e0, i + 1));
            layers.push(layer);
            i = i + 1;
        }
        let final_ln_gain = ld.take("transformer.norm_f.weight");
        let final_ln_bias = load_bias_or_zero(st, "transformer.norm_f.bias", cfg.d_model);
        let output = MptWeights::load_output(st, cfg, &token_embedding);
        match ld.error {
            Some(e) => Err(e),
            None => Ok(
                MptWeights {
                    token_embedding,
                    layers,
                    final_ln_gain,
                    final_ln_bias,
                    output: WeightStorage::F32(output),
                },
            ),
        }
    }
}

impl MptConfig {
    /// The heads fill the model width, all sizes are positive, and for `seq`
    /// tokens every tensor can be addressed.
    pub open spec fn addressable(&self, seq: int) -> bool {
        let m = self.d_model as int;
        &&& self.countable()
        &&& self.q() == m
        &&& self.n_heads % self.kv_n_heads == 0
        &&& m >= 1
        &&& self.expansion_ratio >= 1
        &&& self.vocab_size >= 1
        &&& seq >= 1
        &&& self.n_heads * seq * seq <= usize::MAX
        &&& seq * m <= usize::MAX
        &&& m * m <= usize::MAX
        &&& m * self.ffn() <= usize::MAX
        &&& m * self.vocab_size <= usize::MAX
    }
}

impl MptLayerWeights {
    /// Every weight has the size that the configuration declares.
    pub open spec fn sized(&self, cfg: &MptConfig) -> bool {
        let m = cfg.d_model as int;
        &&& self.norm1_gain@.len() == m
        &&& self.norm1_bias@.len() == m
        &&& self.norm2_gain@.len() == m
        &&& self.norm2_bias@.len() == m
        &&& self.attn_q@.len() == m * m
        &&& self.attn_k@.len() == m * cfg.kv()
        &&& self.attn_v@.len() == m * cfg.kv()
        &&& self.attn_o@.len() == m * m
        &&& self.mlp_up@.len() == m * cfg.ffn()
        &&& self.mlp_down@.len() == cfg.ffn() * m
    }
}

impl MptWeights {
    /// Every weight has the size that the configuration declares.
    pub open spec fn sized(&self, cfg: &MptConfig) -> bool {
        let m = cfg.d_model as int;
        &&& self.token_embedding@.len() == cfg.vocab_size * m
        &&& forall|i: int| 0 <= i < self.layers@.len() ==> (#[trigger] self.layers@[i]).sized(cfg)
        &&& self.final_ln_gain@.len() == m
        &&& self.final_ln_bias@.len() == m
        &&& self.output@.len() == m * cfg.vocab_size
    }
}

/// A layer keeps the extents of its operand.
pub proof fn layer_has(cfg: &MptConfig, w: &MptLayerWeights, x: Tensor, mask: Tensor, s: int)
    requires
        cfg.addressable(s),
        w.sized(cfg),
        has(x, seq![1, s, cfg.d_model as int]),
        has(mask, seq![1, cfg.n_heads as int, s, s]),
    ensures
        has(layer_value(cfg, w, x, mask), seq![1, s, cfg.d_model as int]),
{
    broadcast use extents;

    let m = cfg.d_model as int;
    let heads = cfg.n_heads as int;
    let kvh = cfg.kv_n_heads as int;
    let d = cfg.width();
    let kv = cfg.kv();
    let rep = heads / kvh;
    assert(d >= 1) by (nonlinear_arith)
        requires
            heads * d >= 1,
            heads >= 1,
    ;
    heads_are_shared(heads, kvh, d);
    assert(m * kv <= m * m) by (nonlinear_arith)
        requires
            1 <= kv <= m,
    ;
    assert(cfg.ffn() >= 1) by (nonlinear_arith)
        requires
            cfg.ffn() == m * cfg.expansion_ratio,
            m >= 1,
            cfg.expansion_ratio >= 1,
    ;
    assert(cfg.ffn() * m == m * cfg.ffn()) by (nonlinear_arith);
    let n = normed(x, w.norm1_gain@, w.norm1_bias@, cfg.layer_norm_eps);
    let q = n.linear(w.attn_q@, m, m).split_heads(heads, d);
    let k = n.linear(w.attn_k@, m, kv).split_heads(kvh, d);
    let v = n.linear(w.attn_v@, m, kv).split_heads(kvh, d);
    let kr = k.repeat_interleave(1, rep);
    let vr = v.repeat_interleave(1, rep);
    assert(kr.dims =~= seq![1, heads, s, d]);
    assert(vr.dims =~= seq![1, heads, s, d]);
    assert(lies_under(mask.dims, seq![1, heads, s, s]));
    masked_attention_has(q, kr, vr, inv_sqrt64(d as usize), mask, 1, heads, s, d);
    let ctx = masked_attention(q, kr, vr, inv_sqrt64(d as usize), mask);
    let h1 = x.add(ctx.merge_heads().linear(w.attn_o@, m, m));
    assert(has(h1, seq![1, s, m]));
}

pub proof fn layers_have(cfg: &MptConfig, layers: Seq<MptLayerWeights>, n: int, x: Tensor, mask: Tensor, s: int)
    requires
        cfg.addressable(s),
        0 <= n <= layers.len(),
        forall|i: int| 0 <= i < layers.len() ==> (#[trigger] layers[i]).sized(cfg),
        has(x, seq![1, s, cfg.d_model as int]),
        has(mask, seq![1, cfg.n_heads as int, s, s]),
    ensures
        has(layers_value(cfg, layers, n, x, mask), seq![1, s, cfg.d_model as int]),
    decreases n,
{
    if n > 0 {
        layers_have(cfg, layers, n - 1, x, mask, s);
        layer_has(cfg, &layers[n - 1], layers_value(cfg, layers, n - 1, x, mask), mask, s);
    }
}

/// On weights of the declared sizes every run over embeddings
/// `(1, seq, d_model)` succeeds: the hidden states keep these extents, and the
/// logits are `(1, seq, vocab_size)`.
pub proof fn embeds_run_succeeds(model: &MptModel, embeds: Tensor, seq: int)
    requires
        model.config.addressable(seq),
        model.weights.sized(&model.config),
        has(embeds, seq![1, seq, model.config.d_model as int]),
    ensures
        has(model.hidden(embeds), seq![1, seq, model.config.d_model as int]),
        has(model.logits(embeds), seq![1, seq, model.config.vocab_size as int]),
{
    broadcast use extents;

    let cfg = &model.config;
    let w = &model.weights;
    let heads = cfg.n_heads as int;
    let data = alibi_data(seq, cfg.slopes());
    products(1, heads, seq, seq, 1, 1);
    assert(1 * heads * seq * seq == heads * seq * seq && heads * seq * seq >= 1) by (nonlinear_arith)
        requires
            heads >= 1,
            seq >= 1,
    ;
    constant_has(data, seq![1, heads, seq, seq]);
    layers_have(
        cfg,
        w.layers@,
        w.layers@.len() as int,
        embeds,
        Tensor::constant(data, seq![1, heads, seq, seq]),
        seq,
    );
}

/// On weights of the declared sizes a run over tokens succeeds, and the logits
/// are `(1, seq, vocab_size)`.
pub proof fn forward_succeeds(model: &MptModel, tokens: Seq<u32>)
    requires
        model.config.addressable(tokens.len() as int),
        model.weights.sized(&model.config),
    ensures
        has(
            model.hidden(model.embedded(tokens)),
            seq![1, tokens.len() as int, model.config.d_model as int],
        ),
        has(
            model.logits(model.embedded(tokens)),
            seq![1, tokens.len() as int, model.config.vocab_size as int],
        ),
{
    let cfg = &model.config;
    let m = cfg.d_model as int;
    assert(cfg.vocab_size * m == m * cfg.vocab_size) by (nonlinear_arith);
    embed_has(model.weights.token_embedding@, cfg.vocab_size as int, m, tokens);
    embeds_run_succeeds(model, model.embedded(tokens), tokens.len() as int);
}

/// A run over the embeddings of tokens has the outcome of the run over the
/// tokens, for the logits and for the hidden states.
pub proof fn embeds_run_matches(
    model: &MptModel,
    tokens: Seq<u32>,
    embeds: LazyTensor,
    by_tokens: Result<LazyTensor, Error>,
    by_embeds: Result<LazyTensor, Error>,
    hidden_by_tokens: Result<LazyTensor, Error>,
    hidden_by_embeds: Result<LazyTensor, Error>,
)
    requires
        outcome(Ok(embeds), model.embedded(tokens)),
        outcome(by_tokens, model.logits(model.embedded(tokens))),
        outcome(by_embeds, model.logits(embeds@)),
        outcome(hidden_by_tokens, model.hidden(model.embedded(tokens))),
        outcome(hidden_by_embeds, model.hidden(embeds@)),
    ensures
        agree(by_tokens, by_embeds),
        agree(hidden_by_tokens, hidden_by_embeds),
{
}

/// The masks with position penalties let each row look back in the same way,
/// however long the sequence is.
pub proof fn alibi_masks_look_back(slopes: Seq<Scalar>, t: int, u: int, j: int)
    requires
        0 <= j < t,
        j < u,
    ensures
        look_back(
            Tensor::constant(alibi_data(t, slopes), seq![1, slopes.len() as int, t, t]),
            Tensor::constant(alibi_data(u, slopes), seq![1, slopes.len() as int, u, u]),
            j,
        ),
{
    let (c, e) = (alibi_data(t, slopes), alibi_data(u, slopes));
    let g = slopes.len() as int;
    assert forall|h: int, i: int| 0 <= h < g && 0 <= i <= j implies #[trigger] mask_at(c, t, h, j, i)
        == mask_at(e, u, h, j, i) by {
        alibi_mask_rows(t, slopes, h, j, i);
        alibi_mask_rows(u, slopes, h, j, i);
    }
    assert forall|h: int, i: int| 0 <= h < g && j < i < t implies #[trigger] mask_at(c, t, h, j, i)
        == neg_inf() by {
        alibi_mask_rows(t, slopes, h, j, i);
    }
    assert forall|h: int, i: int| 0 <= h < g && j < i < u implies #[trigger] mask_at(e, u, h, j, i)
        == neg_inf() by {
        alibi_mask_rows(u, slopes, h, j, i);
    }
    assert(rows_look_back(c, e, g, t, u, j));
}

/// The mask of a model over `t` positions.
pub open spec fn alibi_tensor(cfg: &MptConfig, t: int) -> Tensor {
    Tensor::constant(alibi_data(t, cfg.slopes()), seq![1, cfg.n_heads as int, t, t])
}

pub proof fn alibi_tensor_has(cfg: &MptConfig, t: int)
    requires
        cfg.addressable(t),
    ensures
        has(alibi_tensor(cfg, t), seq![1, cfg.n_heads as int, t, t]),
{
    let heads = cfg.n_heads as int;
    products(1, heads, t, t, 1, 1);
    assert(1 * heads * t * t == heads * t * t && heads * t * t >= 1) by (nonlinear_arith)
        requires
            heads >= 1,
            t >= 1,
    ;
    constant_has(alibi_data(t, cfg.slopes()), seq![1, heads, t, t]);
}

proof fn layers_agree<V>(
    at: At<V>,
    cfg: &MptConfig,
    layers: Seq<MptLayerWeights>,
    n: int,
    x: Tensor,
    y: Tensor,
    t: int,
    u: int,
    m: int,
)
    requires
        lawful(at),
        cfg.addressable(t),
        cfg.addressable(u),
        0 <= n <= layers.len(),
        forall|i: int| 0 <= i < layers.len() ==> (#[trigger] layers[i]).sized(cfg),
        has(x, seq![1, t, cfg.d_model as int]),
        has(y, seq![1, u, cfg.d_model as int]),
        m <= t,
        m <= u,
        agrees(at, x, y, 1, m),
    ensures
        has(layers_value(cfg, layers, n, x, alibi_tensor(cfg, t)), seq![1, t, cfg.d_model as int]),
        has(layers_value(cfg, layers, n, y, alibi_tensor(cfg, u)), seq![1, u, cfg.d_model as int]),
        agrees(
            at,
            layers_value(cfg, layers, n, x, alibi_tensor(cfg, t)),
            layers_value(cfg, layers, n, y, alibi_tensor(cfg, u)),
            1,
            m,
        ),
    decreases n,
{
    broadcast use extents;

    if n > 0 {
        layers_agree(at, cfg, layers, n - 1, x, y, t, u, m);
        let md = cfg.d_model as int;
        let heads = cfg.n_heads as int;
        let kvh = cfg.kv_n_heads as int;
        let d = cfg.width();
        let kv = cfg.kv();
        let rep = heads / kvh;
        let ffn = cfg.ffn();
        let w = &layers[n - 1];
        let eps = cfg.layer_norm_eps;
        let scale = inv_sqrt64(d as usize);
        assert(d >= 1) by (nonlinear_arith)
            requires
                heads * d >= 1,
                heads >= 1,
        ;
        heads_are_shared(heads, kvh, d);
        assert(md * kv <= md * md) by (nonlinear_arith)
            requires
                1 <= kv <= md,
        ;
        assert(ffn >= 1 && ffn * md == md * ffn) by (nonlinear_arith)
            requires
                ffn == md * cfg.expansion_ratio,
                md >= 1,
                cfg.expansion_ratio >= 1,
        ;
        let (mt, mu) = (alibi_tensor(cfg, t), alibi_tensor(cfg, u));
        alibi_tensor_has(cfg, t);
        alibi_tensor_has(cfg, u);
        let a = layers_value(cfg, layers, n - 1, x, mt);
        let b = layers_value(cfg, layers, n - 1, y, mu);
        layer_norm_agrees(at, a, b, w.norm1_gain@, w.norm1_bias@, md, eps, t, u, m);
        let na = normed(a, w.norm1_gain@, w.norm1_bias@, eps);
        let nb = normed(b, w.norm1_gain@, w.norm1_bias@, eps);
        heads_map_alike(at, na, nb, w.attn_q@, md, heads, d, t, u, m);
        heads_map_alike(at, na, nb, w.attn_k@, md, kvh, d, t, u, m);
        heads_map_alike(at, na, nb, w.attn_v@, md, kvh, d, t, u, m);
        let qa = na.linear(w.attn_q@, md, md).split_heads(heads, d);
        let qb = nb.linear(w.attn_q@, md, md).split_heads(heads, d);
        let ka = na.linear(w.attn_k@, md, kv).split_heads(kvh, d);
        let kb = nb.linear(w.attn_k@, md, kv).split_heads(kvh, d);
        let va = na.linear(w.attn_v@, md, kv).split_heads(kvh, d);
        let vb = nb.linear(w.attn_v@, md, kv).split_heads(kvh, d);
        heads_repeat_alike(at, ka, kb, kvh, rep, d, t, u, m);
        heads_repeat_alike(at, va, vb, kvh, rep, d, t, u, m);
        let (ka, kb) = (ka.repeat_interleave(1, rep), kb.repeat_interleave(1, rep));
        let (va, vb) = (va.repeat_interleave(1, rep), vb.repeat_interleave(1, rep));
        assert(lies_under(mt.dims, seq![1, heads, t, t]));
        assert(lies_under(mu.dims, seq![1, heads, u, u]));
        assert forall|j: int| 0 <= j < m implies #[trigger] look_back(mt, mu, j) by {
            alibi_masks_look_back(cfg.slopes(), t, u, j);
        }
        attention_joins_alike(at, qa, ka, va, mt, qb, kb, vb, mu, scale, heads, d, t, u, m);
        let ca = masked_attention(qa, ka, va, scale, mt).merge_heads();
        let cb = masked_attention(qb, kb, vb, scale, mu).merge_heads();
        rows_map_alike(at, ca, cb, w.attn_o@, md, md, t, u, m);
        let (oa, ob) = (ca.linear(w.attn_o@, md, md), cb.linear(w.attn_o@, md, md));
        sum_agrees(at, a, oa, b, ob, 1, m);
        let (a1, b1) = (a.add(oa), b.add(ob));
        layer_norm_agrees(at, a1, b1, w.norm2_gain@, w.norm2_bias@, md, eps, t, u, m);
        let fa = normed(a1, w.norm2_gain@, w.norm2_bias@, eps);
        let fb = normed(b1, w.norm2_gain@, w.norm2_bias@, eps);
        rows_map_alike(at, fa, fb, w.mlp_up@, md, ffn, t, u, m);
        let (ua, ub) = (fa.linear(w.mlp_up@, md, ffn), fb.linear(w.mlp_up@, md, ffn));
        let (ga, gb) = (ua.gelu_erf(), ub.gelu_erf());
        assert forall|j: int| 0 <= j < m implies #[trigger] same(at, ga, gb, 1, j) by {
            assert(same(at, ua, ub, 1, j));
        }
        rows_map_alike(at, ga, gb, w.mlp_down@, ffn, md, t, u, m);
        sum_agrees(
            at,
            a1,
            ga.linear(w.mlp_down@, ffn, md),
            b1,
            gb.linear(w.mlp_down@, ffn, md),
            1,
            m,
        );
    }
}

/// The final states and the logits of a position depend on the tokens up to it:
/// sequences that begin alike have states and logits that begin alike, whatever
/// follows.
pub proof fn logits_are_causal<V>(at: At<V>, model: &MptModel, a: Seq<u32>, b: Seq<u32>, m: int)
    requires
        lawful(at),
        model.config.addressable(a.len() as int),
        model.config.addressable(b.len() as int),
        model.weights.sized(&model.config),
        begin_alike(a, b, m),
    ensures
        agrees(at, model.hidden(model.embedded(a)), model.hidden(model.embedded(b)), 1, m),
        agrees(at, model.logits(model.embedded(a)), model.logits(model.embedded(b)), 1, m),
{
    let cfg = &model.config;
    let w = &model.weights;
    let md = cfg.d_model as int;
    let v = cfg.vocab_size as int;
    let (t, u) = (a.len() as int, b.len() as int);
    let n = w.layers@.len() as int;
    assert(v * md == md * v) by (nonlinear_arith);
    embed_has(w.token_embedding@, v, md, a);
    embed_has(w.token_embedding@, v, md, b);
    embeddings_agree(at, w.token_embedding@, v, md, a, b, m);
    let (ea, eb) = (model.embedded(a), model.embedded(b));
    layers_agree(at, cfg, w.layers@, n, ea, eb, t, u, m);
    layer_norm_agrees(
        at,
        layers_value(cfg, w.layers@, n, ea, alibi_tensor(cfg, t)),
        layers_value(cfg, w.layers@, n, eb, alibi_tensor(cfg, u)),
        w.final_ln_gain@,
        w.final_ln_bias@,
        md,
        cfg.layer_norm_eps,
        t,
        u,
        m,
    );
    rows_map_alike(at, model.hidden(ea), model.hidden(eb), w.output@, md, v, t, u, m);
}

} // verus!
