//! Mistral: a causal decoder with grouped attention over a sliding window.
//!
//! A token attends to itself and to the tokens before it; with a window of `w`
//! only to the last `w` of them.

use crate::causality::{
    attention_joins_alike, begin_alike, embeddings_agree, heads_turn_alike, rms_norm_agrees,
    rows_map_alike, sum_agrees, swiglu_agrees,
};
use crate::common::{
    attend_masked, causal_data, feed_swiglu, heads_are_shared, mask_has, mask_value, masked_attention,
    masked_attention_has, square_index, swiglu, swiglu_has, LayerWeights,
};
use crate::error::Error;
use crate::evaluation::{
    agrees, flat_mask, lawful, look_back, mask_at, mixed_heads, regroups_behind, regroups_front,
    rows_look_back, same, seen_alike, sees, At,
};
use crate::extents::{
    broadcast_to_has, embed_has, extents, has, lies_under, products, reshape_has, reshape_merges,
    reshape_splits,
};
use crate::lazy::{outcome, LazyTensor, Tensor, WeightStorage};
use crate::scalar::{inv_sqrt64, neg_inf, Data, Scalar};
use std::sync::Arc;
use vstd::prelude::*;

verus! {

#[derive(Debug, Clone)]
pub struct MistralConfig {
    pub vocab_size: usize,
    pub hidden_size: usize,
    pub intermediate_size: usize,
    pub num_hidden_layers: usize,
    pub num_attention_heads: usize,
    pub num_key_value_heads: usize,
    pub head_dim: usize,
    pub rms_norm_eps: Scalar,
    pub rope_theta: Scalar,
    pub max_position_embeddings: usize,
    /// Number of tokens that a token sees, itself among them; all earlier ones
    /// where there is none.
    pub sliding_window: Option<usize>,
}

impl MistralConfig {
    /// Width of the keys, and of the values.
    pub open spec fn kv(&self) -> int {
        self.num_key_value_heads * self.head_dim
    }

    /// The heads fill the model width, and the key heads share the query heads
    /// evenly.
    pub open spec fn valid(&self) -> bool {
        &&& self.num_attention_heads * self.head_dim == self.hidden_size
        &&& self.num_key_value_heads > 0
        &&& self.num_attention_heads % self.num_key_value_heads == 0
        &&& self.kv() <= usize::MAX
    }

    /// The `Mistral-7B-v0.1` sizes.
    pub fn mistral_7b_v0_1() -> (r: Self)
        ensures
            r == (MistralConfig {
                vocab_size: 32000,
                hidden_size: 4096,
                intermediate_size: 14336,
                num_hidden_layers: 32,
                num_attention_heads: 32,
                num_key_value_heads: 8,
                head_dim: 128,
                rms_norm_eps: Scalar::F64(0x3EE4_F8B5_88E3_68F1),
                rope_theta: Scalar::F64(0x40C3_8800_0000_0000),
                max_position_embeddings: 32_768,
                sliding_window: Some(4096),
            }),
            r.valid(),
    {
        MistralConfig {
            vocab_size: 32000,
            hidden_size: 4096,
            intermediate_size: 14336,
            num_hidden_layers: 32,
            num_attention_heads: 32,
            num_key_value_heads: 8,
            head_dim: 128,
            rms_norm_eps: Scalar::F64(0x3EE4_F8B5_88E3_68F1),
            rope_theta: Scalar::F64(0x40C3_8800_0000_0000),
            max_position_embeddings: 32_768,
            sliding_window: Some(4096),
        }
    }
}

#[derive(Debug, Clone)]
pub struct MistralWeights {
    /// `[vocab_size, hidden_size]`.
    pub token_embedding: Data,
    pub layers: Vec<LayerWeights>,
    /// `[hidden_size]`.
    pub final_norm_gain: Data,
    /// `[hidden_size, vocab_size]`.
    pub output: WeightStorage,
}

#[derive(Debug, Clone)]
pub struct MistralModel {
    pub config: MistralConfig,
    pub weights: MistralWeights,
}

/// Whether row `i` does not see column `j`: it lies ahead, or it has left the
/// window.
pub open spec fn out_of_window(window: Option<usize>, i: int, j: int) -> bool {
    j > i || (window matches Some(w) && j + w <= i)
}

/// The additive mask of a window; element `(i, j)` stands at `i * seq + j`.
pub open spec fn window_data(window: Option<usize>, seq: int) -> Seq<Scalar> {
    Seq::new((seq * seq) as nat, |k: int| mask_value(out_of_window(window, k / seq, k % seq)))
}

/// The mask as `(1, 1, seq, seq)`.
pub open spec fn window_mask(window: Option<usize>, seq: int) -> Tensor {
    Tensor::constant(window_data(window, seq), seq![1, 1, seq, seq])
}

/// In the mask, row `i` sees column `j` exactly where `j` is neither ahead nor
/// beyond the window.
pub proof fn window_mask_rows(window: Option<usize>, seq: int, i: int, j: int)
    requires
        0 <= i < seq,
        0 <= j < seq,
    ensures
        0 <= i * seq + j < window_data(window, seq).len(),
        window_data(window, seq)[i * seq + j] == mask_value(
            j > i || (window matches Some(w) && j + w <= i),
        ),
{
    square_index(seq, i, j);
}

/// Without a window, or with one that holds the whole sequence, the mask is the
/// causal one.
pub proof fn wide_window_is_causal(window: Option<usize>, seq: int)
    requires
        seq >= 0,
        window matches Some(w) ==> seq <= w,
    ensures
        window_data(window, seq) == causal_data(seq),
{
    assert forall|k: int| 0 <= k < seq * seq implies window_data(window, seq)[k] == causal_data(
        seq,
    )[k] by {
        assert(seq > 0 && 0 <= k / seq < seq && 0 <= k % seq) by (nonlinear_arith)
            requires
                0 <= k < seq * seq,
                seq >= 0,
        ;
    }
    assert(window_data(window, seq) =~= causal_data(seq));
}

/// Projected tokens `(batch, seq, heads * width)` by heads.
pub open spec fn by_heads(x: Tensor, batch: int, seq: int, heads: int, width: int) -> Tensor {
    x.reshape(seq![batch, seq, heads, width]).permute(seq![0, 2, 1, 3])
}

/// Key or value heads repeated for the query heads that share them.
pub open spec fn repeated_heads(
    t: Tensor,
    batch: int,
    seq: int,
    kv_heads: int,
    heads: int,
    width: int,
) -> Tensor {
    if heads / kv_heads == 1 {
        t
    } else {
        t.reshape(seq![batch, kv_heads, 1, seq, width]).broadcast_to(
            seq![batch, kv_heads, heads / kv_heads, seq, width],
        ).reshape(seq![batch, heads, seq, width])
    }
}

/// One decoder layer.
pub open spec fn layer_value(
    cfg: &MistralConfig,
    w: &LayerWeights,
    x: Tensor,
    cos: Tensor,
    sin: Tensor,
    mask: Tensor,
) -> Tensor {
    let batch = x.dim(0);
    let seq = x.dim(1);
    let h = cfg.hidden_size as int;
    let heads = cfg.num_attention_heads as int;
    let kvh = cfg.num_key_value_heads as int;
    let d = cfg.head_dim as int;
    let n = x.rms_norm(w.attn_norm_gain@, h, cfg.rms_norm_eps);
    let q = by_heads(n.linear(w.attn_q@, h, h), batch, seq, heads, d).rope_with_tables(cos, sin);
    let k = by_heads(n.linear(w.attn_k@, h, cfg.kv()), batch, seq, kvh, d).rope_with_tables(cos, sin);
    let v = by_heads(n.linear(w.attn_v@, h, cfg.kv()), batch, seq, kvh, d);
    let ctx = masked_attention(
        q,
        repeated_heads(k, batch, seq, kvh, heads, d),
        repeated_heads(v, batch, seq, kvh, heads, d),
        inv_sqrt64(cfg.head_dim),
        mask,
    );
    let h1 = x.add(
        ctx.permute(seq![0, 2, 1, 3]).reshape(seq![batch, seq, h]).linear(w.attn_o@, h, h),
    );
    h1.add(
        swiglu(
            h1.rms_norm(w.ffn_norm_gain@, h, cfg.rms_norm_eps),
            w.ffn_gate@,
            w.ffn_up@,
            w.ffn_down@,
            h,
            cfg.intermediate_size as int,
        ),
    )
}

/// The first `n` layers, one after the other.
pub open spec fn layers_value(
    cfg: &MistralConfig,
    layers: Seq<LayerWeights>,
    n: int,
    x: Tensor,
    cos: Tensor,
    sin: Tensor,
    mask: Tensor,
) -> Tensor
    decreases n,
{
    if n <= 0 {
        x
    } else {
        layer_value(
            cfg,
            &layers[n - 1],
            layers_value(cfg, layers, n - 1, x, cos, sin, mask),
            cos,
            sin,
            mask,
        )
    }
}

/// Builds the mask of a window.
pub fn build_window_mask(window: Option<usize>, seq: usize) -> (r: LazyTensor)
    requires
        seq * seq <= usize::MAX,
    ensures
        r@ == window_mask(window, seq as int),
{
    let n: usize = seq * seq;
    let mut data: Vec<Scalar> = Vec::new();
    let mut k: usize = 0;
    while k < n
        invariant
            k <= n == seq * seq,
            data@.len() == k,
            forall|m: int| 0 <= m < k ==> data@[m] == window_data(window, seq as int)[m],
        decreases n - k,
    {
        assert(seq > 0) by (nonlinear_arith)
            requires
                seq * seq > 0,
                seq >= 0,
        ;
        let i: usize = k / seq;
        let j: usize = k % seq;
        let hidden: bool = j > i || match window {
            None => false,
            Some(w) => w <= i && j <= i - w,
        };
        data.push(
            if hidden {
                Scalar::F32(0xFF80_0000)
            } else {
                Scalar::F32(0)
            },
        );
        k = k + 1;
    }
    assert(data@ =~= window_data(window, seq as int));
    LazyTensor::const4(&Arc::new(data), 1, 1, seq, seq)
}

impl MistralModel {
    /// Logits `(1, seq, vocab_size)`.
    pub open spec fn logits(&self, tokens: Seq<u32>, start: int) -> Tensor {
        let cfg = &self.config;
        let w = &self.weights;
        let h = cfg.hidden_size as int;
        let seq = tokens.len() as int;
        layers_value(
            cfg,
            w.layers@,
            w.layers@.len() as int,
            Tensor::embed_tokens(w.token_embedding@, cfg.vocab_size as int, h, tokens),
            Tensor::rope_cos(cfg.rope_theta, start, seq, cfg.head_dim as int),
            Tensor::rope_sin(cfg.rope_theta, start, seq, cfg.head_dim as int),
            window_mask(cfg.sliding_window, seq),
        ).rms_norm(w.final_norm_gain@, h, cfg.rms_norm_eps).linear(
            w.output@,
            h,
            cfg.vocab_size as int,
        )
    }

    /// Logits `(1, seq, vocab_size)` of the tokens, the first of which stands at
    /// position `start_pos`.
    pub fn forward(&self, tokens: &[u32], start_pos: usize) -> (r: Result<LazyTensor, Error>)
        requires
            self.config.valid(),
            tokens@.len() > 0,
            tokens@.len() * tokens@.len() <= usize::MAX,
        ensures
            outcome(r, self.logits(tokens@, start_pos as int)),
    {
        let cfg = &self.config;
        let weights = &self.weights;
        let seq: usize = tokens.len();
        let mut h = LazyTensor::embed_tokens(
            &weights.token_embedding,
            cfg.vocab_size,
            cfg.hidden_size,
            tokens,
        );
        let ghost h0 = h@;
        let (rope_cos, rope_sin) = LazyTensor::rope_tables(
            &cfg.rope_theta,
            start_pos,
            seq,
            cfg.head_dim,
        );
        let mask = build_window_mask(cfg.sliding_window, seq);
        let mut i: usize = 0;
        while i < weights.layers.len()
            invariant
                cfg == &self.config,
                weights == &self.weights,
                cfg.valid(),
                i <= weights.layers@.len(),
                h@ == layers_value(
                    cfg,
                    weights.layers@,
                    i as int,
                    h0,
                    rope_cos@,
                    rope_sin@,
                    mask@,
                ),
            decreases weights.layers@.len() - i,
        {
            h = self.apply_layer(&h, &weights.layers[i], &rope_cos, &rope_sin, &mask);
            i = i + 1;
        }
        let h_norm = h.rms_norm(&weights.final_norm_gain, cfg.hidden_size, &cfg.rms_norm_eps);
        weights.output.apply_linear(&h_norm, cfg.hidden_size, cfg.vocab_size).finish()
    }

    fn expand(&self, t: LazyTensor, batch: usize, seq: usize) -> (r: LazyTensor)
        requires
            self.config.valid(),
        ensures
            r@ == repeated_heads(
                t@,
                batch as int,
                seq as int,
                self.config.num_key_value_heads as int,
                self.config.num_attention_heads as int,
                self.config.head_dim as int,
            ),
    {
        let cfg = &self.config;
        let n_rep: usize = cfg.num_attention_heads / cfg.num_key_value_heads;
        if n_rep == 1 {
            return t;
        }
        t.reshape5(batch, cfg.num_key_value_heads, 1, seq, cfg.head_dim).broadcast_to5(
            batch,
            cfg.num_key_value_heads,
            n_rep,
            seq,
            cfg.head_dim,
        ).reshape4(batch, cfg.num_attention_heads, seq, cfg.head_dim)
    }

    /// One transformer layer: attention under the mask, then the feed-forward
    /// part, each added to what it reads.
    pub fn apply_layer(
        &self,
        x: &LazyTensor,
        layer: &LayerWeights,
        rope_cos: &LazyTensor,
        rope_sin: &LazyTensor,
        mask: &LazyTensor,
    ) -> (r: LazyTensor)
        requires
            self.config.valid(),
        ensures
            r@ == layer_value(&self.config, layer, x@, rope_cos@, rope_sin@, mask@),
    {
        let cfg = &self.config;
        let batch: usize = x.dim(0);
        let seq: usize = x.dim(1);
        let h: usize = cfg.hidden_size;
        let kv_dim: usize = cfg.num_key_value_heads * cfg.head_dim;
        let x_norm = x.rms_norm(&layer.attn_norm_gain, h, &cfg.rms_norm_eps);

        let q = layer.attn_q.apply_linear(&x_norm, h, h).reshape4(
            batch,
            seq,
            cfg.num_attention_heads,
            cfg.head_dim,
        ).permute4(0, 2, 1, 3).rope_with_tables(rope_cos, rope_sin);
        let k = layer.attn_k.apply_linear(&x_norm, h, kv_dim).reshape4(
            batch,
            seq,
            cfg.num_key_value_heads,
            cfg.head_dim,
        ).permute4(0, 2, 1, 3).rope_with_tables(rope_cos, rope_sin);
        let v = layer.attn_v.apply_linear(&x_norm, h, kv_dim).reshape4(
            batch,
            seq,
            cfg.num_key_value_heads,
            cfg.head_dim,
        ).permute4(0, 2, 1, 3);

        let k_full = self.expand(k, batch, seq);
        let v_full = self.expand(v, batch, seq);
        let attn_v = attend_masked(&q, &k_full, &v_full, &Scalar::inv_sqrt64(cfg.head_dim), mask);
        let merged = attn_v.permute4(0, 2, 1, 3).reshape3(batch, seq, h);
        let h1 = x.add(&layer.attn_o.apply_linear(&merged, h, h));

        let h1_norm = h1.rms_norm(&layer.ffn_norm_gain, h, &cfg.rms_norm_eps);
        h1.add(
            &feed_swiglu(
                &h1_norm,
                &layer.ffn_gate,
                &layer.ffn_up,
                &layer.ffn_down,
                h,
                cfg.intermediate_size,
            ),
        )
    }
}

impl MistralConfig {
    /// All sizes are positive, heads have an even width, and for `seq` tokens
    /// every tensor can be addressed.
    pub open spec fn addressable(&self, seq: int) -> bool {
        let h = self.hidden_size as int;
        &&& self.valid()
        &&& self.head_dim >= 1
        &&& self.head_dim % 2 == 0
        &&& h >= 1
        &&& self.intermediate_size >= 1
        &&& self.vocab_size >= 1
        &&& seq >= 1
        &&& seq * seq <= usize::MAX
        &&& seq * h <= usize::MAX
        &&& h * h <= usize::MAX
        &&& h * self.intermediate_size <= usize::MAX
        &&& h * self.vocab_size <= usize::MAX
    }
}

impl MistralWeights {
    /// Every weight has the size that the configuration declares.
    pub open spec fn sized(&self, cfg: &MistralConfig) -> bool {
        let h = cfg.hidden_size as int;
        &&& self.token_embedding@.len() == cfg.vocab_size * h
        &&& forall|i: int|
            0 <= i < self.layers@.len() ==> (#[trigger] self.layers@[i]).sized(
                h,
                cfg.kv(),
                cfg.intermediate_size as int,
            )
        &&& self.final_norm_gain@.len() == h
        &&& self.output@.len() == h * cfg.vocab_size
    }
}

/// Projected heads have their extents.
pub proof fn by_heads_has(x: Tensor, s: int, heads: int, width: int)
    requires
        has(x, seq![1, s, heads * width]),
        s >= 1,
        heads >= 1,
        width >= 1,
        s * (heads * width) <= usize::MAX,
    ensures
        has(by_heads(x, 1, s, heads, width), seq![1, heads, s, width]),
{
    broadcast use extents;

    assert(1 * s * (heads * width) == s * (heads * width)) by (nonlinear_arith);
    reshape_splits(x, 1, s, heads, width);
}

/// Repeated heads have the extents of the query heads.
pub proof fn repeated_heads_has(t: Tensor, s: int, kvh: int, heads: int, width: int)
    requires
        has(t, seq![1, kvh, s, width]),
        s >= 1,
        kvh >= 1,
        width >= 1,
        heads / kvh >= 1,
        kvh * (heads / kvh) == heads,
        s * (heads * width) <= usize::MAX,
    ensures
        has(repeated_heads(t, 1, s, kvh, heads, width), seq![1, heads, s, width]),
{
    let n = heads / kvh;
    if n != 1 {
        products(1, kvh, s, width, 1, 1);
        products(1, kvh, 1, s, width, 1);
        products(1, kvh, n, s, width, 1);
        products(1, heads, s, width, 1, 1);
        assert(1 * kvh * 1 * s * width == 1 * kvh * s * width) by (nonlinear_arith);
        assert(1 * kvh * n * s * width == s * (heads * width) && 1 * heads * s * width == s * (heads
            * width)) by (nonlinear_arith)
            requires
                kvh * n == heads,
        ;
        assert(1 * kvh * s * width <= s * (heads * width)) by (nonlinear_arith)
            requires
                kvh * n == heads,
                n >= 1,
                kvh >= 1,
                s >= 1,
                width >= 1,
        ;
        assert(heads >= 1) by (nonlinear_arith)
            requires
                kvh * n == heads,
                kvh >= 1,
                n >= 1,
        ;
        let a = t.reshape(seq![1, kvh, 1, s, width]);
        reshape_has(t, seq![1, kvh, 1, s, width]);
        broadcast_to_has(a, seq![1, kvh, n, s, width]);
        reshape_has(a.broadcast_to(seq![1, kvh, n, s, width]), seq![1, heads, s, width]);
    }
}

/// A layer keeps the extents of its operand.
pub proof fn layer_has(
    cfg: &MistralConfig,
    w: &LayerWeights,
    x: Tensor,
    cos: Tensor,
    sin: Tensor,
    mask: Tensor,
    s: int,
)
    requires
        cfg.addressable(s),
        w.sized(cfg.hidden_size as int, cfg.kv(), cfg.intermediate_size as int),
        has(x, seq![1, s, cfg.hidden_size as int]),
        has(cos, seq![s, cfg.head_dim as int]),
        has(sin, seq![s, cfg.head_dim as int]),
        has(mask, seq![1, 1, s, s]),
    ensures
        has(layer_value(cfg, w, x, cos, sin, mask), seq![1, s, cfg.hidden_size as int]),
{
    broadcast use extents;

    let h = cfg.hidden_size as int;
    let heads = cfg.num_attention_heads as int;
    let kvh = cfg.num_key_value_heads as int;
    let d = cfg.head_dim as int;
    let kv = cfg.kv();
    heads_are_shared(heads, kvh, d);
    assert(h * kv <= h * h) by (nonlinear_arith)
        requires
            1 <= kv <= h,
    ;
    assert(s * kv <= s * h) by (nonlinear_arith)
        requires
            1 <= kv <= h,
            s >= 1,
    ;
    let n = x.rms_norm(w.attn_norm_gain@, h, cfg.rms_norm_eps);
    by_heads_has(n.linear(w.attn_q@, h, h), s, heads, d);
    by_heads_has(n.linear(w.attn_k@, h, kv), s, kvh, d);
    by_heads_has(n.linear(w.attn_v@, h, kv), s, kvh, d);
    let q = by_heads(n.linear(w.attn_q@, h, h), 1, s, heads, d).rope_with_tables(cos, sin);
    let k = by_heads(n.linear(w.attn_k@, h, kv), 1, s, kvh, d).rope_with_tables(cos, sin);
    let v = by_heads(n.linear(w.attn_v@, h, kv), 1, s, kvh, d);
    repeated_heads_has(k, s, kvh, heads, d);
    repeated_heads_has(v, s, kvh, heads, d);
    let kr = repeated_heads(k, 1, s, kvh, heads, d);
    let vr = repeated_heads(v, 1, s, kvh, heads, d);
    assert(lies_under(mask.dims, seq![1, heads, s, s]));
    masked_attention_has(q, kr, vr, inv_sqrt64(cfg.head_dim), mask, 1, heads, s, d);
    let ctx = masked_attention(q, kr, vr, inv_sqrt64(cfg.head_dim), mask);
    assert(1 * s * (heads * d) == s * h) by (nonlinear_arith)
        requires
            heads * d == h,
    ;
    reshape_merges(ctx.permute(seq![0, 2, 1, 3]), 1, s, heads, d);
    let h1 = x.add(ctx.permute(seq![0, 2, 1, 3]).reshape(seq![1, s, h]).linear(w.attn_o@, h, h));
    assert(has(h1, seq![1, s, h]));
    swiglu_has(
        h1.rms_norm(w.ffn_norm_gain@, h, cfg.rms_norm_eps),
        w.ffn_gate@,
        w.ffn_up@,
        w.ffn_down@,
        h,
        cfg.intermediate_size as int,
        1,
        s,
    );
}

pub proof fn layers_have(
    cfg: &MistralConfig,
    layers: Seq<LayerWeights>,
    n: int,
    x: Tensor,
    cos: Tensor,
    sin: Tensor,
    mask: Tensor,
    s: int,
)
    requires
        cfg.addressable(s),
        0 <= n <= layers.len(),
        forall|i: int|
            0 <= i < layers.len() ==> (#[trigger] layers[i]).sized(
                cfg.hidden_size as int,
                cfg.kv(),
                cfg.intermediate_size as int,
            ),
        has(x, seq![1, s, cfg.hidden_size as int]),
        has(cos, seq![s, cfg.head_dim as int]),
        has(sin, seq![s, cfg.head_dim as int]),
        has(mask, seq![1, 1, s, s]),
    ensures
        has(layers_value(cfg, layers, n, x, cos, sin, mask), seq![1, s, cfg.hidden_size as int]),
    decreases n,
{
    if n > 0 {
        layers_have(cfg, layers, n - 1, x, cos, sin, mask, s);
        layer_has(
            cfg,
            &layers[n - 1],
            layers_value(cfg, layers, n - 1, x, cos, sin, mask),
            cos,
            sin,
            mask,
            s,
        );
    }
}

/// On weights of the declared sizes a forward pass succeeds, and the logits are
/// `(1, seq, vocab_size)`.
pub proof fn forward_succeeds(model: &MistralModel, tokens: Seq<u32>, start: int)
    requires
        model.config.addressable(tokens.len() as int),
        model.weights.sized(&model.config),
    ensures
        has(
            model.logits(tokens, start),
            seq![1, tokens.len() as int, model.config.vocab_size as int],
        ),
{
    broadcast use extents;

    let cfg = &model.config;
    let w = &model.weights;
    let h = cfg.hidden_size as int;
    let s = tokens.len() as int;
    assert(cfg.vocab_size * h == h * cfg.vocab_size) by (nonlinear_arith);
    embed_has(w.token_embedding@, cfg.vocab_size as int, h, tokens);
    mask_has(window_data(cfg.sliding_window, s), s, 1, cfg.num_attention_heads as int);
    layers_have(
        cfg,
        w.layers@,
        w.layers@.len() as int,
        Tensor::embed_tokens(w.token_embedding@, cfg.vocab_size as int, h, tokens),
        Tensor::rope_cos(cfg.rope_theta, start, s, cfg.head_dim as int),
        Tensor::rope_sin(cfg.rope_theta, start, s, cfg.head_dim as int),
        window_mask(cfg.sliding_window, s),
        s,
    );
}

/// A window that holds the whole sequence changes nothing: the logits are those
/// without a window.
pub proof fn wide_window_changes_nothing(a: &MistralModel, b: &MistralModel, tokens: Seq<u32>, start: int)
    requires
        a.weights == b.weights,
        b.config == (MistralConfig { sliding_window: None, ..a.config }),
        a.config.sliding_window matches Some(w) ==> tokens.len() <= w,
    ensures
        a.logits(tokens, start) == b.logits(tokens, start),
{
    let s = tokens.len() as int;
    wide_window_is_causal(a.config.sliding_window, s);
    wide_window_is_causal(b.config.sliding_window, s);
    let x = Tensor::embed_tokens(
        a.weights.token_embedding@,
        a.config.vocab_size as int,
        a.config.hidden_size as int,
        tokens,
    );
    let cos = Tensor::rope_cos(a.config.rope_theta, start, s, a.config.head_dim as int);
    let sin = Tensor::rope_sin(a.config.rope_theta, start, s, a.config.head_dim as int);
    let layers = a.weights.layers@;
    same_layers(
        &a.config,
        &b.config,
        layers,
        layers.len() as int,
        x,
        cos,
        sin,
        window_mask(a.config.sliding_window, s),
    );
}

/// The window of a configuration counts in the mask alone.
proof fn same_layers(
    a: &MistralConfig,
    b: &MistralConfig,
    layers: Seq<LayerWeights>,
    n: int,
    x: Tensor,
    cos: Tensor,
    sin: Tensor,
    mask: Tensor,
)
    requires
        *b == (MistralConfig { sliding_window: None, ..*a }),
    ensures
        layers_value(a, layers, n, x, cos, sin, mask) == layers_value(b, layers, n, x, cos, sin, mask),
    decreases n,
{
    if n > 0 {
        same_layers(a, b, layers, n - 1, x, cos, sin, mask);
    }
}

/// The masks of a window let each row look back in the same way, however long the
/// sequence is.
pub proof fn window_masks_look_back(window: Option<usize>, t: int, u: int, j: int)
    requires
        0 <= j < t,
        j < u,
    ensures
        look_back(window_mask(window, t), window_mask(window, u), j),
{
    let (c, e) = (window_data(window, t), window_data(window, u));
    assert forall|h: int, i: int| 0 <= h < 1 && 0 <= i <= j implies #[trigger] mask_at(c, t, h, j, i)
        == mask_at(e, u, h, j, i) by {
        assert(h * t + j == j && h * u + j == j) by (nonlinear_arith)
            requires
                h == 0,
        ;
        window_mask_rows(window, t, j, i);
        window_mask_rows(window, u, j, i);
    }
    assert forall|h: int, i: int| 0 <= h < 1 && j < i < t implies #[trigger] mask_at(c, t, h, j, i)
        == neg_inf() by {
        assert(h * t + j == j) by (nonlinear_arith)
            requires
                h == 0,
        ;
        window_mask_rows(window, t, j, i);
    }
    assert forall|h: int, i: int| 0 <= h < 1 && j < i < u implies #[trigger] mask_at(e, u, h, j, i)
        == neg_inf() by {
        assert(h * u + j == j) by (nonlinear_arith)
            requires
                h == 0,
        ;
        window_mask_rows(window, u, j, i);
    }
    assert(rows_look_back(c, e, 1, t, u, j));
}

proof fn by_heads_agrees<V>(
    at: At<V>,
    x: Tensor,
    y: Tensor,
    heads: int,
    width: int,
    t: int,
    u: int,
    m: int,
)
    requires
        lawful(at),
        has(x, seq![1, t, heads * width]),
        has(y, seq![1, u, heads * width]),
        heads >= 1,
        width >= 1,
        t >= 1,
        u >= 1,
        t * (heads * width) <= usize::MAX,
        u * (heads * width) <= usize::MAX,
        agrees(at, x, y, 1, m),
    ensures
        has(by_heads(x, 1, t, heads, width), seq![1, heads, t, width]),
        has(by_heads(y, 1, u, heads, width), seq![1, heads, u, width]),
        agrees(at, by_heads(x, 1, t, heads, width), by_heads(y, 1, u, heads, width), 2, m),
{
    broadcast use extents;

    by_heads_has(x, t, heads, width);
    by_heads_has(y, u, heads, width);
    assert(1 * t * (heads * width) == t * (heads * width) && 1 * u * (heads * width) == u * (heads * width));
    reshape_splits(x, 1, t, heads, width);
    reshape_splits(y, 1, u, heads, width);
    let (d, e) = (seq![1, t, heads, width], seq![1, u, heads, width]);
    let p = seq![0int, 2, 1, 3];
    assert(regroups_behind(x.dims, y.dims, d, e, 1));
    assert forall|j: int| 0 <= j < m implies #[trigger] same(
        at,
        by_heads(x, 1, t, heads, width),
        by_heads(y, 1, u, heads, width),
        2,
        j,
    ) by {
        assert(same(at, x, y, 1, j));
        assert(same(at, x.reshape(d), y.reshape(e), 1, j));
        assert(p[2] == 1);
        assert(same(at, x.reshape(d).permute(p), y.reshape(e).permute(p), 2, j));
    }
}

proof fn repeated_heads_agree<V>(
    at: At<V>,
    x: Tensor,
    y: Tensor,
    kvh: int,
    heads: int,
    width: int,
    t: int,
    u: int,
    m: int,
)
    requires
        lawful(at),
        has(x, seq![1, kvh, t, width]),
        has(y, seq![1, kvh, u, width]),
        t >= 1,
        u >= 1,
        kvh >= 1,
        width >= 1,
        heads / kvh >= 1,
        kvh * (heads / kvh) == heads,
        t * (heads * width) <= usize::MAX,
        u * (heads * width) <= usize::MAX,
        agrees(at, x, y, 2, m),
    ensures
        has(repeated_heads(x, 1, t, kvh, heads, width), seq![1, heads, t, width]),
        has(repeated_heads(y, 1, u, kvh, heads, width), seq![1, heads, u, width]),
        agrees(
            at,
            repeated_heads(x, 1, t, kvh, heads, width),
            repeated_heads(y, 1, u, kvh, heads, width),
            2,
            m,
        ),
{
    repeated_heads_has(x, t, kvh, heads, width);
    repeated_heads_has(y, u, kvh, heads, width);
    let n = heads / kvh;
    if n != 1 {
        repeated_parts_have(x, t, kvh, heads, width);
        repeated_parts_have(y, u, kvh, heads, width);
        let (d5, e5) = (seq![1, kvh, 1, t, width], seq![1, kvh, 1, u, width]);
        let (dn, en) = (seq![1, kvh, n, t, width], seq![1, kvh, n, u, width]);
        let (d4, e4) = (seq![1, heads, t, width], seq![1, heads, u, width]);
        let (rx, ry) = (x.reshape(d5), y.reshape(e5));
        let (bx, by) = (rx.broadcast_to(dn), ry.broadcast_to(en));
        assert(regroups_front(x.dims, y.dims, d5, e5, 2, 3));
        assert(regroups_front(dn, en, d4, e4, 3, 2));
        assert(d5.update(3, u) =~= e5);
        assert(dn.update(3, u) =~= en);
        assert forall|j: int| 0 <= j < m implies #[trigger] same(at, bx.reshape(d4), by.reshape(e4), 2, j) by {
            assert(same(at, x, y, 2, j));
            assert(same(at, rx, ry, 3, j));
            assert(same(at, bx, by, 3, j));
        }
    }
}

/// The steps of repeating heads succeed.
proof fn repeated_parts_have(t: Tensor, s: int, kvh: int, heads: int, width: int)
    requires
        has(t, seq![1, kvh, s, width]),
        s >= 1,
        kvh >= 1,
        width >= 1,
        heads / kvh >= 1,
        kvh * (heads / kvh) == heads,
        s * (heads * width) <= usize::MAX,
    ensures
        has(t.reshape(seq![1, kvh, 1, s, width]), seq![1, kvh, 1, s, width]),
        has(
            t.reshape(seq![1, kvh, 1, s, width]).broadcast_to(
                seq![1, kvh, heads / kvh, s, width],
            ),
            seq![1, kvh, heads / kvh, s, width],
        ),
{
    let n = heads / kvh;
    products(1, kvh, s, width, 1, 1);
    products(1, kvh, 1, s, width, 1);
    assert(1 * kvh * 1 * s * width == 1 * kvh * s * width) by (nonlinear_arith);
    assert(1 * kvh * s * width <= s * (heads * width)) by (nonlinear_arith)
        requires
            kvh * n == heads,
            n >= 1,
            kvh >= 1,
            s >= 1,
            width >= 1,
    ;
    let a = t.reshape(seq![1, kvh, 1, s, width]);
    reshape_has(t, seq![1, kvh, 1, s, width]);
    broadcast_to_has(a, seq![1, kvh, n, s, width]);
}

/// Heads put together again agree.
proof fn joined_heads_agree<V>(
    at: At<V>,
    x: Tensor,
    y: Tensor,
    heads: int,
    width: int,
    t: int,
    u: int,
    m: int,
)
    requires
        lawful(at),
        has(x, seq![1, heads, t, width]),
        has(y, seq![1, heads, u, width]),
        heads >= 1,
        width >= 1,
        t >= 1,
        u >= 1,
        t * (heads * width) <= usize::MAX,
        u * (heads * width) <= usize::MAX,
        agrees(at, x, y, 2, m),
    ensures
        ({
            let a = x.permute(seq![0, 2, 1, 3]).reshape(seq![1, t, heads * width]);
            let b = y.permute(seq![0, 2, 1, 3]).reshape(seq![1, u, heads * width]);
            &&& has(a, seq![1, t, heads * width])
            &&& has(b, seq![1, u, heads * width])
            &&& agrees(at, a, b, 1, m)
        }),
{
    broadcast use extents;

    let h = heads * width;
    let p = seq![0int, 2, 1, 3];
    let (px, py) = (x.permute(p), y.permute(p));
    assert(1 * t * (heads * width) == t * (heads * width) && 1 * u * (heads * width) == u * (heads * width));
    reshape_merges(px, 1, t, heads, width);
    reshape_merges(py, 1, u, heads, width);
    let (d, e) = (seq![1, t, h], seq![1, u, h]);
    assert(regroups_behind(px.dims, py.dims, d, e, 1));
    assert forall|j: int| 0 <= j < m implies #[trigger] same(at, px.reshape(d), py.reshape(e), 1, j) by {
        assert(same(at, x, y, 2, j));
        assert(p[1] == 2);
        assert(same(at, px, py, 1, j));
    }
}

/// The first `n` layers over `t` positions, with their tables and their mask.
pub open spec fn layers_over(
    cfg: &MistralConfig,
    layers: Seq<LayerWeights>,
    n: int,
    x: Tensor,
    start: int,
    t: int,
) -> Tensor {
    layers_value(
        cfg,
        layers,
        n,
        x,
        Tensor::rope_cos(cfg.rope_theta, start, t, cfg.head_dim as int),
        Tensor::rope_sin(cfg.rope_theta, start, t, cfg.head_dim as int),
        window_mask(cfg.sliding_window, t),
    )
}

proof fn attention_agrees<V>(
    at: At<V>,
    cfg: &MistralConfig,
    w: &LayerWeights,
    x: Tensor,
    y: Tensor,
    start: int,
    t: int,
    u: int,
    m: int,
)
    requires
        lawful(at),
        cfg.addressable(t),
        cfg.addressable(u),
        w.sized(cfg.hidden_size as int, cfg.kv(), cfg.intermediate_size as int),
        has(x, seq![1, t, cfg.hidden_size as int]),
        has(y, seq![1, u, cfg.hidden_size as int]),
        m <= t,
        m <= u,
        agrees(at, x, y, 1, m),
    ensures
        has(attention_over(cfg, w, x, start, t), seq![1, t, cfg.hidden_size as int]),
        has(attention_over(cfg, w, y, start, u), seq![1, u, cfg.hidden_size as int]),
        agrees(at, attention_over(cfg, w, x, start, t), attention_over(cfg, w, y, start, u), 1, m),
{
    broadcast use extents;

    let h = cfg.hidden_size as int;
    let heads = cfg.num_attention_heads as int;
    let kvh = cfg.num_key_value_heads as int;
    let d = cfg.head_dim as int;
    let kv = cfg.kv();
    let theta = cfg.rope_theta;
    let scale = inv_sqrt64(cfg.head_dim);
    heads_are_shared(heads, kvh, d);
    assert(h * kv <= h * h) by (nonlinear_arith)
        requires
            1 <= kv <= h,
    ;
    assert(t * kv <= t * h && u * kv <= u * h) by (nonlinear_arith)
        requires
            1 <= kv <= h,
            t >= 1,
            u >= 1,
    ;
    rows_map_alike(at, x, y, w.attn_q@, h, h, t, u, m);
    rows_map_alike(at, x, y, w.attn_k@, h, kv, t, u, m);
    rows_map_alike(at, x, y, w.attn_v@, h, kv, t, u, m);
    by_heads_agrees(at, x.linear(w.attn_q@, h, h), y.linear(w.attn_q@, h, h), heads, d, t, u, m);
    by_heads_agrees(at, x.linear(w.attn_k@, h, kv), y.linear(w.attn_k@, h, kv), kvh, d, t, u, m);
    by_heads_agrees(at, x.linear(w.attn_v@, h, kv), y.linear(w.attn_v@, h, kv), kvh, d, t, u, m);
    let qx = by_heads(x.linear(w.attn_q@, h, h), 1, t, heads, d);
    let qy = by_heads(y.linear(w.attn_q@, h, h), 1, u, heads, d);
    let kx = by_heads(x.linear(w.attn_k@, h, kv), 1, t, kvh, d);
    let ky = by_heads(y.linear(w.attn_k@, h, kv), 1, u, kvh, d);
    let vx = by_heads(x.linear(w.attn_v@, h, kv), 1, t, kvh, d);
    let vy = by_heads(y.linear(w.attn_v@, h, kv), 1, u, kvh, d);
    heads_turn_alike(at, qx, qy, theta, start, heads, d, t, u, m);
    heads_turn_alike(at, kx, ky, theta, start, kvh, d, t, u, m);
    let (ct, st) = (Tensor::rope_cos(theta, start, t, d), Tensor::rope_sin(theta, start, t, d));
    let (cu, su) = (Tensor::rope_cos(theta, start, u, d), Tensor::rope_sin(theta, start, u, d));
    let (qx, qy) = (qx.rope_with_tables(ct, st), qy.rope_with_tables(cu, su));
    let (kx, ky) = (kx.rope_with_tables(ct, st), ky.rope_with_tables(cu, su));
    repeated_heads_agree(at, kx, ky, kvh, heads, d, t, u, m);
    repeated_heads_agree(at, vx, vy, kvh, heads, d, t, u, m);
    let kx = repeated_heads(kx, 1, t, kvh, heads, d);
    let ky = repeated_heads(ky, 1, u, kvh, heads, d);
    let vx = repeated_heads(vx, 1, t, kvh, heads, d);
    let vy = repeated_heads(vy, 1, u, kvh, heads, d);
    let (mt, mu) = (window_mask(cfg.sliding_window, t), window_mask(cfg.sliding_window, u));
    mask_has(window_data(cfg.sliding_window, t), t, 1, heads);
    mask_has(window_data(cfg.sliding_window, u), u, 1, heads);
    assert forall|j: int| 0 <= j < m implies #[trigger] look_back(mt, mu, j) by {
        window_masks_look_back(cfg.sliding_window, t, u, j);
    }
    attention_joins_alike(at, qx, kx, vx, mt, qy, ky, vy, mu, scale, heads, d, t, u, m);
    let cx = masked_attention(qx, kx, vx, scale, mt);
    let cy = masked_attention(qy, ky, vy, scale, mu);
    joined_heads_agree(at, cx, cy, heads, d, t, u, m);
    rows_map_alike(
        at,
        cx.permute(seq![0, 2, 1, 3]).reshape(seq![1, t, h]),
        cy.permute(seq![0, 2, 1, 3]).reshape(seq![1, u, h]),
        w.attn_o@,
        h,
        h,
        t,
        u,
        m,
    );
}

/// The attention of a layer over `t` normed rows, with its tables and its mask.
pub open spec fn attention_over(
    cfg: &MistralConfig,
    w: &LayerWeights,
    n: Tensor,
    start: int,
    t: int,
) -> Tensor {
    let h = cfg.hidden_size as int;
    let heads = cfg.num_attention_heads as int;
    let kvh = cfg.num_key_value_heads as int;
    let d = cfg.head_dim as int;
    let cos = Tensor::rope_cos(cfg.rope_theta, start, t, d);
    let sin = Tensor::rope_sin(cfg.rope_theta, start, t, d);
    let q = by_heads(n.linear(w.attn_q@, h, h), 1, t, heads, d).rope_with_tables(cos, sin);
    let k = by_heads(n.linear(w.attn_k@, h, cfg.kv()), 1, t, kvh, d).rope_with_tables(cos, sin);
    let v = by_heads(n.linear(w.attn_v@, h, cfg.kv()), 1, t, kvh, d);
    masked_attention(
        q,
        repeated_heads(k, 1, t, kvh, heads, d),
        repeated_heads(v, 1, t, kvh, heads, d),
        inv_sqrt64(cfg.head_dim),
        window_mask(cfg.sliding_window, t),
    ).permute(seq![0, 2, 1, 3]).reshape(seq![1, t, h]).linear(w.attn_o@, h, h)
}

proof fn layers_agree<V>(
    at: At<V>,
    cfg: &MistralConfig,
    layers: Seq<LayerWeights>,
    n: int,
    x: Tensor,
    y: Tensor,
    start: int,
    t: int,
    u: int,
    m: int,
)
    requires
        lawful(at),
        cfg.addressable(t),
        cfg.addressable(u),
        0 <= n <= layers.len(),
        forall|i: int|
            0 <= i < layers.len() ==> (#[trigger] layers[i]).sized(
                cfg.hidden_size as int,
                cfg.kv(),
                cfg.intermediate_size as int,
            ),
        has(x, seq![1, t, cfg.hidden_size as int]),
        has(y, seq![1, u, cfg.hidden_size as int]),
        m <= t,
        m <= u,
        agrees(at, x, y, 1, m),
    ensures
        has(layers_over(cfg, layers, n, x, start, t), seq![1, t, cfg.hidden_size as int]),
        has(layers_over(cfg, layers, n, y, start, u), seq![1, u, cfg.hidden_size as int]),
        agrees(
            at,
            layers_over(cfg, layers, n, x, start, t),
            layers_over(cfg, layers, n, y, start, u),
            1,
            m,
        ),
    decreases n,
{
    broadcast use extents;

    if n > 0 {
        layers_agree(at, cfg, layers, n - 1, x, y, start, t, u, m);
        let h = cfg.hidden_size as int;
        let w = &layers[n - 1];
        let eps = cfg.rms_norm_eps;
        let inner = cfg.intermediate_size as int;
        let a = layers_over(cfg, layers, n - 1, x, start, t);
        let b = layers_over(cfg, layers, n - 1, y, start, u);
        rms_norm_agrees(at, a, b, w.attn_norm_gain@, h, eps, t, u, m);
        let na = a.rms_norm(w.attn_norm_gain@, h, eps);
        let nb = b.rms_norm(w.attn_norm_gain@, h, eps);
        attention_agrees(at, cfg, w, na, nb, start, t, u, m);
        let aa = attention_over(cfg, w, na, start, t);
        let ab = attention_over(cfg, w, nb, start, u);
        sum_agrees(at, a, aa, b, ab, 1, m);
        let (a1, b1) = (a.add(aa), b.add(ab));
        rms_norm_agrees(at, a1, b1, w.ffn_norm_gain@, h, eps, t, u, m);
        let fa = a1.rms_norm(w.ffn_norm_gain@, h, eps);
        let fb = b1.rms_norm(w.ffn_norm_gain@, h, eps);
        swiglu_agrees(at, fa, fb, w.ffn_gate@, w.ffn_up@, w.ffn_down@, h, inner, t, u, m);
        sum_agrees(
            at,
            a1,
            swiglu(fa, w.ffn_gate@, w.ffn_up@, w.ffn_down@, h, inner),
            b1,
            swiglu(fb, w.ffn_gate@, w.ffn_up@, w.ffn_down@, h, inner),
            1,
            m,
        );
    }
}

/// The logits of a position depend on the tokens up to it: sequences that begin
/// alike have logits that begin alike, whatever follows.
pub proof fn logits_are_causal<V>(
    at: At<V>,
    model: &MistralModel,
    a: Seq<u32>,
    b: Seq<u32>,
    start: int,
    m: int,
)
    requires
        lawful(at),
        model.config.addressable(a.len() as int),
        model.config.addressable(b.len() as int),
        model.weights.sized(&model.config),
        begin_alike(a, b, m),
    ensures
        agrees(at, model.logits(a, start), model.logits(b, start), 1, m),
{
    let cfg = &model.config;
    let w = &model.weights;
    let h = cfg.hidden_size as int;
    let v = cfg.vocab_size as int;
    let (t, u) = (a.len() as int, b.len() as int);
    let n = w.layers@.len() as int;
    assert(v * h == h * v) by (nonlinear_arith);
    embed_has(w.token_embedding@, v, h, a);
    embed_has(w.token_embedding@, v, h, b);
    embeddings_agree(at, w.token_embedding@, v, h, a, b, m);
    let ea = Tensor::embed_tokens(w.token_embedding@, v, h, a);
    let eb = Tensor::embed_tokens(w.token_embedding@, v, h, b);
    layers_agree(at, cfg, w.layers@, n, ea, eb, start, t, u, m);
    let (la, lb) = (
        layers_over(cfg, w.layers@, n, ea, start, t),
        layers_over(cfg, w.layers@, n, eb, start, u),
    );
    rms_norm_agrees(at, la, lb, w.final_norm_gain@, h, cfg.rms_norm_eps, t, u, m);
    rows_map_alike(
        at,
        la.rms_norm(w.final_norm_gain@, h, cfg.rms_norm_eps),
        lb.rms_norm(w.final_norm_gain@, h, cfg.rms_norm_eps),
        w.output@,
        h,
        v,
        t,
        u,
        m,
    );
}

/// A row by heads is the same where the row is.
proof fn row_by_heads<V>(at: At<V>, x: Tensor, y: Tensor, w: Seq<Scalar>, h: int, heads: int, d: int, s: int, i: int)
    requires
        lawful(at),
        has(x, seq![1, s, h]),
        has(y, seq![1, s, h]),
        h >= 1,
        heads >= 1,
        d >= 1,
        s >= 1,
        h * (heads * d) <= usize::MAX,
        s * (heads * d) <= usize::MAX,
        w.len() == h * (heads * d),
        same(at, x, y, 1, i),
    ensures
        ({
            let a = by_heads(x.linear(w, h, heads * d), 1, s, heads, d);
            let b = by_heads(y.linear(w, h, heads * d), 1, s, heads, d);
            &&& has(a, seq![1, heads, s, d])
            &&& has(b, seq![1, heads, s, d])
            &&& same(at, a, b, 2, i)
        }),
{
    broadcast use extents;

    let n = heads * d;
    assert(n >= 1) by (nonlinear_arith)
        requires
            n == heads * d,
            heads >= 1,
            d >= 1,
    ;
    let (lx, ly) = (x.linear(w, h, n), y.linear(w, h, n));
    assert(has(lx, seq![1, s, n]) && has(ly, seq![1, s, n]));
    by_heads_has(lx, s, heads, d);
    by_heads_has(ly, s, heads, d);
    assert(1 * s * (heads * d) == s * (heads * d));
    reshape_splits(lx, 1, s, heads, d);
    reshape_splits(ly, 1, s, heads, d);
    let e = seq![1, s, heads, d];
    let p = seq![0int, 2, 1, 3];
    assert(regroups_behind(lx.dims, ly.dims, e, e, 1));
    assert(same(at, lx, ly, 1, i));
    assert(same(at, lx.reshape(e), ly.reshape(e), 1, i));
    assert(p[2] == 1);
    assert(same(at, lx.reshape(e).permute(p), ly.reshape(e).permute(p), 2, i));
}

/// A repeated position is the same where the position is.
proof fn row_repeated<V>(at: At<V>, x: Tensor, y: Tensor, kvh: int, heads: int, width: int, s: int, i: int)
    requires
        lawful(at),
        has(x, seq![1, kvh, s, width]),
        has(y, seq![1, kvh, s, width]),
        s >= 1,
        kvh >= 1,
        width >= 1,
        heads / kvh >= 1,
        kvh * (heads / kvh) == heads,
        s * (heads * width) <= usize::MAX,
        same(at, x, y, 2, i),
    ensures
        ({
            let a = repeated_heads(x, 1, s, kvh, heads, width);
            let b = repeated_heads(y, 1, s, kvh, heads, width);
            &&& has(a, seq![1, heads, s, width])
            &&& has(b, seq![1, heads, s, width])
            &&& same(at, a, b, 2, i)
        }),
{
    repeated_heads_has(x, s, kvh, heads, width);
    repeated_heads_has(y, s, kvh, heads, width);
    let n = heads / kvh;
    if n != 1 {
        repeated_parts_have(x, s, kvh, heads, width);
        repeated_parts_have(y, s, kvh, heads, width);
        let d5 = seq![1, kvh, 1, s, width];
        let dn = seq![1, kvh, n, s, width];
        let d4 = seq![1, heads, s, width];
        let (rx, ry) = (x.reshape(d5), y.reshape(d5));
        let (bx, by) = (rx.broadcast_to(dn), ry.broadcast_to(dn));
        assert(regroups_front(x.dims, y.dims, d5, d5, 2, 3));
        assert(regroups_front(dn, dn, d4, d4, 3, 2));
        assert(d5.update(3, s) =~= d5);
        assert(dn.update(3, s) =~= dn);
        assert(same(at, rx, ry, 3, i));
        assert(same(at, bx, by, 3, i));
        assert(same(at, bx.reshape(d4), by.reshape(d4), 2, i));
    }
}

/// What a layer attends with: the turned queries, and the turned keys and the
/// values, repeated for the query heads.
pub open spec fn attended(cfg: &MistralConfig, w: &LayerWeights, n: Tensor, cos: Tensor, sin: Tensor, s: int) -> (
    Tensor,
    Tensor,
    Tensor,
) {
    let h = cfg.hidden_size as int;
    let heads = cfg.num_attention_heads as int;
    let kvh = cfg.num_key_value_heads as int;
    let d = cfg.head_dim as int;
    (
        by_heads(n.linear(w.attn_q@, h, h), 1, s, heads, d).rope_with_tables(cos, sin),
        repeated_heads(
            by_heads(n.linear(w.attn_k@, h, cfg.kv()), 1, s, kvh, d).rope_with_tables(cos, sin),
            1,
            s,
            kvh,
            heads,
            d,
        ),
        repeated_heads(by_heads(n.linear(w.attn_v@, h, cfg.kv()), 1, s, kvh, d), 1, s, kvh, heads, d),
    )
}

/// Queries, keys and values at a row are the same where the row is.
proof fn row_attended<V>(
    at: At<V>,
    cfg: &MistralConfig,
    w: &LayerWeights,
    x: Tensor,
    y: Tensor,
    cos: Tensor,
    sin: Tensor,
    s: int,
    i: int,
)
    requires
        lawful(at),
        cfg.addressable(s),
        w.sized(cfg.hidden_size as int, cfg.kv(), cfg.intermediate_size as int),
        has(x, seq![1, s, cfg.hidden_size as int]),
        has(y, seq![1, s, cfg.hidden_size as int]),
        has(cos, seq![s, cfg.head_dim as int]),
        has(sin, seq![s, cfg.head_dim as int]),
        same(at, x, y, 1, i),
    ensures
        ({
            let d4 = seq![1, cfg.num_attention_heads as int, s, cfg.head_dim as int];
            let (qx, kx, vx) = attended(cfg, w, x, cos, sin, s);
            let (qy, ky, vy) = attended(cfg, w, y, cos, sin, s);
            &&& has(qx, d4) && has(qy, d4) && same(at, qx, qy, 2, i)
            &&& has(kx, d4) && has(ky, d4) && same(at, kx, ky, 2, i)
            &&& has(vx, d4) && has(vy, d4) && same(at, vx, vy, 2, i)
        }),
{
    broadcast use extents;

    let h = cfg.hidden_size as int;
    let heads = cfg.num_attention_heads as int;
    let kvh = cfg.num_key_value_heads as int;
    let d = cfg.head_dim as int;
    let kv = cfg.kv();
    heads_are_shared(heads, kvh, d);
    assert(h * kv <= h * h) by (nonlinear_arith)
        requires
            1 <= kv <= h,
    ;
    assert(s * kv <= s * h) by (nonlinear_arith)
        requires
            1 <= kv <= h,
            s >= 1,
    ;
    row_by_heads(at, x, y, w.attn_q@, h, heads, d, s, i);
    row_by_heads(at, x, y, w.attn_k@, h, kvh, d, s, i);
    row_by_heads(at, x, y, w.attn_v@, h, kvh, d, s, i);
    let (qx, qy) = (
        by_heads(x.linear(w.attn_q@, h, h), 1, s, heads, d),
        by_heads(y.linear(w.attn_q@, h, h), 1, s, heads, d),
    );
    let (kx, ky) = (
        by_heads(x.linear(w.attn_k@, h, kv), 1, s, kvh, d),
        by_heads(y.linear(w.attn_k@, h, kv), 1, s, kvh, d),
    );
    let (vx, vy) = (
        by_heads(x.linear(w.attn_v@, h, kv), 1, s, kvh, d),
        by_heads(y.linear(w.attn_v@, h, kv), 1, s, kvh, d),
    );
    assert(same(at, cos, cos, 0, i) && same(at, sin, sin, 0, i));
    assert(same(at, qx.rope_with_tables(cos, sin), qy.rope_with_tables(cos, sin), 2, i));
    assert(same(at, kx.rope_with_tables(cos, sin), ky.rope_with_tables(cos, sin), 2, i));
    row_repeated(at, kx.rope_with_tables(cos, sin), ky.rope_with_tables(cos, sin), kvh, heads, d, s, i);
    row_repeated(at, vx, vy, kvh, heads, d, s, i);
}

/// A normed row is the same where the row is.
proof fn row_normed<V>(at: At<V>, x: Tensor, y: Tensor, gain: Seq<Scalar>, h: int, eps: Scalar, s: int, i: int)
    requires
        lawful(at),
        has(x, seq![1, s, h]),
        has(y, seq![1, s, h]),
        1 <= h <= usize::MAX,
        gain.len() == h,
        same(at, x, y, 1, i),
    ensures
        has(x.rms_norm(gain, h, eps), seq![1, s, h]),
        has(y.rms_norm(gain, h, eps), seq![1, s, h]),
        same(at, x.rms_norm(gain, h, eps), y.rms_norm(gain, h, eps), 1, i),
{
    broadcast use extents;

    let g = Tensor::constant(gain, seq![h]);
    let (nx, ny) = (x.rms_norm_last_dim(eps), y.rms_norm_last_dim(eps));
    assert(same(at, nx, ny, 1, i));
    assert(same(at, nx.broadcast_mul(g), ny.broadcast_mul(g), 1, i));
}

/// The feed-forward part works on each row by itself.
proof fn row_fed<V>(at: At<V>, w: &LayerWeights, x: Tensor, y: Tensor, h: int, kv: int, inner: int, s: int, i: int)
    requires
        lawful(at),
        w.sized(h, kv, inner),
        has(x, seq![1, s, h]),
        has(y, seq![1, s, h]),
        h >= 1,
        inner >= 1,
        h * inner <= usize::MAX,
        same(at, x, y, 1, i),
    ensures
        ({
            let a = swiglu(x, w.ffn_gate@, w.ffn_up@, w.ffn_down@, h, inner);
            let b = swiglu(y, w.ffn_gate@, w.ffn_up@, w.ffn_down@, h, inner);
            has(a, seq![1, s, h]) && has(b, seq![1, s, h]) && same(at, a, b, 1, i)
        }),
{
    broadcast use extents;

    assert(inner * h == h * inner) by (nonlinear_arith);
    let (gx, gy) = (x.linear(w.ffn_gate@, h, inner), y.linear(w.ffn_gate@, h, inner));
    let (ux, uy) = (x.linear(w.ffn_up@, h, inner), y.linear(w.ffn_up@, h, inner));
    assert(same(at, gx, gy, 1, i) && same(at, ux, uy, 1, i));
    assert(same(at, gx.silu(), gy.silu(), 1, i));
    let (px, py) = (gx.silu().mul(ux), gy.silu().mul(uy));
    assert(same(at, px, py, 1, i));
    assert(same(at, px.linear(w.ffn_down@, inner, h), py.linear(w.ffn_down@, inner, h), 1, i));
}

/// Whether position `j` sees position `i`: itself and, under a window of `w`
/// positions, the `w - 1` before it, else all before it.
pub open spec fn in_window(window: Option<usize>, j: int, i: int) -> bool {
    i <= j && (window matches Some(w) ==> i + w > j)
}

/// A row of a layer depends on the rows of its window alone: states that are the
/// same at a position and at those of its window before it are the same at the
/// position after the layer.
pub proof fn window_layer_isolates<V>(
    at: At<V>,
    cfg: &MistralConfig,
    w: &LayerWeights,
    x: Tensor,
    y: Tensor,
    cos: Tensor,
    sin: Tensor,
    s: int,
    j: int,
)
    requires
        lawful(at),
        cfg.addressable(s),
        cfg.sliding_window matches Some(n) ==> n >= 1,
        w.sized(cfg.hidden_size as int, cfg.kv(), cfg.intermediate_size as int),
        has(x, seq![1, s, cfg.hidden_size as int]),
        has(y, seq![1, s, cfg.hidden_size as int]),
        has(cos, seq![s, cfg.head_dim as int]),
        has(sin, seq![s, cfg.head_dim as int]),
        0 <= j < s,
        forall|i: int|
            0 <= i < s && in_window(cfg.sliding_window, j, i) ==> #[trigger] same(at, x, y, 1, i),
    ensures
        same(
            at,
            layer_value(cfg, w, x, cos, sin, window_mask(cfg.sliding_window, s)),
            layer_value(cfg, w, y, cos, sin, window_mask(cfg.sliding_window, s)),
            1,
            j,
        ),
{
    broadcast use extents;

    let h = cfg.hidden_size as int;
    let heads = cfg.num_attention_heads as int;
    let d = cfg.head_dim as int;
    let eps = cfg.rms_norm_eps;
    let inner = cfg.intermediate_size as int;
    let data = window_data(cfg.sliding_window, s);
    let mask = flat_mask(data, s);
    let scale = inv_sqrt64(cfg.head_dim);
    assert(mask == window_mask(cfg.sliding_window, s));
    let (nx, ny) = (x.rms_norm(w.attn_norm_gain@, h, eps), y.rms_norm(w.attn_norm_gain@, h, eps));
    let (qx, kx, vx) = attended(cfg, w, nx, cos, sin, s);
    let (qy, ky, vy) = attended(cfg, w, ny, cos, sin, s);
    assert(in_window(cfg.sliding_window, j, j));
    assert(same(at, x, y, 1, j));
    row_normed(at, x, y, w.attn_norm_gain@, h, eps, s, j);
    row_attended(at, cfg, w, nx, ny, cos, sin, s, j);
    assert forall|i: int| 0 <= i < s && #[trigger] sees(data, s, j, i) implies same(at, kx, ky, 2, i)
        && same(at, vx, vy, 2, i) by {
        window_mask_rows(cfg.sliding_window, s, j, i);
        assert(in_window(cfg.sliding_window, j, i));
        assert(same(at, x, y, 1, i));
        row_normed(at, x, y, w.attn_norm_gain@, h, eps, s, i);
        row_attended(at, cfg, w, nx, ny, cos, sin, s, i);
    }
    window_mask_rows(cfg.sliding_window, s, j, j);
    assert(sees(data, s, j, j));
    assert(seen_alike(at, qx, kx, vx, qy, ky, vy, data, s, j));
    mask_has(data, s, 1, heads);
    masked_attention_has(qx, kx, vx, scale, mask, 1, heads, s, d);
    masked_attention_has(qy, ky, vy, scale, mask, 1, heads, s, d);
    let (cx, cy) = (masked_attention(qx, kx, vx, scale, mask), masked_attention(qy, ky, vy, scale, mask));
    assert(cx == mixed_heads(qx, kx, vx, Some(scale), mask));
    assert(cy == mixed_heads(qy, ky, vy, Some(scale), mask));
    assert(same(at, cx, cy, 2, j));
    heads_put_together(at, cfg, w, cx, cy, s, j);
    let o = seq![1, s, h];
    let p = seq![0int, 2, 1, 3];
    let ox = cx.permute(p).reshape(o).linear(w.attn_o@, h, h);
    let oy = cy.permute(p).reshape(o).linear(w.attn_o@, h, h);
    let (zx, zy) = (x.add(ox), y.add(oy));
    assert(same(at, zx, zy, 1, j));
    row_normed(at, zx, zy, w.ffn_norm_gain@, h, eps, s, j);
    let (fx, fy) = (zx.rms_norm(w.ffn_norm_gain@, h, eps), zy.rms_norm(w.ffn_norm_gain@, h, eps));
    row_fed(at, w, fx, fy, h, cfg.kv(), inner, s, j);
    assert(same(
        at,
        zx.add(swiglu(fx, w.ffn_gate@, w.ffn_up@, w.ffn_down@, h, inner)),
        zy.add(swiglu(fy, w.ffn_gate@, w.ffn_up@, w.ffn_down@, h, inner)),
        1,
        j,
    ));
}

/// A position of the heads, put together and projected, is the same where it was.
proof fn heads_put_together<V>(
    at: At<V>,
    cfg: &MistralConfig,
    w: &LayerWeights,
    x: Tensor,
    y: Tensor,
    s: int,
    j: int,
)
    requires
        lawful(at),
        cfg.addressable(s),
        w.sized(cfg.hidden_size as int, cfg.kv(), cfg.intermediate_size as int),
        has(x, seq![1, cfg.num_attention_heads as int, s, cfg.head_dim as int]),
        has(y, seq![1, cfg.num_attention_heads as int, s, cfg.head_dim as int]),
        same(at, x, y, 2, j),
    ensures
        ({
            let h = cfg.hidden_size as int;
            let a = x.permute(seq![0, 2, 1, 3]).reshape(seq![1, s, h]).linear(w.attn_o@, h, h);
            let b = y.permute(seq![0, 2, 1, 3]).reshape(seq![1, s, h]).linear(w.attn_o@, h, h);
            has(a, seq![1, s, h]) && has(b, seq![1, s, h]) && same(at, a, b, 1, j)
        }),
{
    broadcast use extents;

    let h = cfg.hidden_size as int;
    let heads = cfg.num_attention_heads as int;
    let d = cfg.head_dim as int;
    let p = seq![0int, 2, 1, 3];
    let (px, py) = (x.permute(p), y.permute(p));
    assert(1 * s * (heads * d) == s * h) by (nonlinear_arith)
        requires
            heads * d == h,
    ;
    reshape_merges(px, 1, s, heads, d);
    reshape_merges(py, 1, s, heads, d);
    let o = seq![1, s, h];
    assert(regroups_behind(px.dims, py.dims, o, o, 1));
    assert(p[1] == 2);
    assert(same(at, px, py, 1, j));
    let (rx, ry) = (px.reshape(o), py.reshape(o));
    assert(same(at, rx, ry, 1, j));
    assert(same(at, rx.linear(w.attn_o@, h, h), ry.linear(w.attn_o@, h, h), 1, j));
}

} // verus!
