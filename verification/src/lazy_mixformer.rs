//! MixFormer: a causal decoder with parallel attention and feed-forward parts.
//!
//! One normalisation feeds both parts of a layer, and the layer adds both to
//! its input. Rotary embedding applies to the first features of each head.

use crate::causality::{
    affine_agrees, attention_joins_alike, begin_alike, embeddings_agree, heads_turn_alike,
    layer_norm_agrees, split_agrees, sum_agrees,
};
use crate::common::{
    agree, attend_masked, embedding_extents, masked_attention, masked_attention_has, tie_head,
    tied_head,
};
use crate::error::Error;
use crate::evaluation::{agrees, causal_heads, columns, lawful, same, At};
use crate::extents::{embed_has, extents, has, lies_under, products, reshape_has};
use crate::lazy::{outcome, LazyTensor, Tensor, WeightStorage};
use crate::scalar::{inv_sqrt64, Data, Scalar};
use vstd::prelude::*;

verus! {

/// Activation of the feed-forward part.
#[derive(Debug, Clone, Copy, PartialEq, Eq, Structural)]
pub enum MixFormerActivation {
    /// Gaussian error linear unit in its `erf` form.
    Gelu,
    /// The same in its `tanh` form.
    GeluPytorchTanh,
}

#[derive(Debug, Clone)]
pub struct MixFormerConfig {
    pub vocab_size: usize,
    pub hidden_size: usize,
    /// Width inside the feed-forward part; four times the model width where
    /// absent.
    pub n_inner: Option<usize>,
    pub num_hidden_layers: usize,
    pub num_attention_heads: usize,
    /// Features of a head that are rotated.
    pub rotary_dim: usize,
    pub layer_norm_eps: Scalar,
    pub max_position_embeddings: usize,
    pub rope_theta: Scalar,
    pub hidden_activation: MixFormerActivation,
    pub tie_word_embeddings: bool,
}

impl MixFormerConfig {
    /// Width of a head.
    pub open spec fn width(&self) -> int {
        self.hidden_size as int / self.num_attention_heads as int
    }

    /// Width inside the feed-forward part.
    pub open spec fn inner(&self) -> int {
        match self.n_inner {
            Some(n) => n as int,
            None => 4 * self.hidden_size,
        }
    }

    /// Features of a head that are rotated, an even number.
    pub open spec fn rotated(&self) -> int {
        self.rotary_dim - self.rotary_dim % 2
    }

    /// There are heads, and the widths can be counted.
    pub open spec fn countable(&self) -> bool {
        &&& self.num_attention_heads > 0
        &&& 3 * self.hidden_size <= usize::MAX
        &&& self.inner() <= usize::MAX
    }

    /// The heads also fill the model width, and some of their features are
    /// rotated.
    pub open spec fn valid(&self) -> bool {
        &&& self.countable()
        &&& self.num_attention_heads * self.width() == self.hidden_size
        &&& 0 < self.rotated() <= self.width()
    }

    /// Width of a head.
    pub fn head_dim(&self) -> (r: usize)
        requires
            self.num_attention_heads > 0,
        ensures
            r == self.width(),
    {
        self.hidden_size / self.num_attention_heads
    }

    /// Width inside the feed-forward part.
    pub fn inner_dim(&self) -> (r: usize)
        requires
            self.inner() <= usize::MAX,
        ensures
            r == self.inner(),
    {
        match self.n_inner {
            Some(n) => n,
            None => 4 * self.hidden_size,
        }
    }

    /// The rotated features, rounded down to an even number.
    pub fn effective_rotary_dim(&self) -> (r: usize)
        ensures
            r == self.rotated(),
    {
        self.rotary_dim - self.rotary_dim % 2
    }

    /// The `phi-1_5` sizes.
    pub fn phi_1_5() -> (r: Self)
        ensures
            r == (MixFormerConfig {
                vocab_size: 51200,
                hidden_size: 2048,
                n_inner: None,
                num_hidden_layers: 24,
                num_attention_heads: 32,
                rotary_dim: 32,
                layer_norm_eps: Scalar::F64(0x3EE4_F8B5_88E3_68F1),
                max_position_embeddings: 2048,
                rope_theta: Scalar::F64(0x40C3_8800_0000_0000),
                hidden_activation: MixFormerActivation::GeluPytorchTanh,
                tie_word_embeddings: false,
            }),
            r.valid(),
    {
        MixFormerConfig {
            vocab_size: 51200,
            hidden_size: 2048,
            n_inner: None,
            num_hidden_layers: 24,
            num_attention_heads: 32,
            rotary_dim: 32,
            layer_norm_eps: Scalar::F64(0x3EE4_F8B5_88E3_68F1),
            max_position_embeddings: 2048,
            rope_theta: Scalar::F64(0x40C3_8800_0000_0000),
            hidden_activation: MixFormerActivation::GeluPytorchTanh,
            tie_word_embeddings: false,
        }
    }
}

#[derive(Debug, Clone)]
pub struct MixFormerLayerWeights {
    pub ln_gain: Data,
    pub ln_bias: Data,
    /// `[hidden, 3 * hidden]`.
    pub wqkv: WeightStorage,
    pub wqkv_bias: Data,
    pub out_proj: WeightStorage,
    pub out_proj_bias: Data,
    pub fc1: WeightStorage,
    pub fc1_bias: Data,
    pub fc2: WeightStorage,
    pub fc2_bias: Data,
}

#[derive(Debug, Clone)]
pub struct MixFormerWeights {
    pub token_embedding: Data,
    pub layers: Vec<MixFormerLayerWeights>,
    pub final_ln_gain: Data,
    pub final_ln_bias: Data,
    /// Where absent, the head is the transposed token embedding.
    pub lm_head: Option<WeightStorage>,
    pub lm_head_bias: Data,
}

#[derive(Debug, Clone)]
pub struct MixFormerModel {
    pub config: MixFormerConfig,
    pub weights: MixFormerWeights,
}

/// The first `rot` features of each head rotated, the others unchanged.
pub open spec fn partly_rotated(x: Tensor, cos: Tensor, sin: Tensor, width: int, rot: int) -> Tensor {
    if rot >= width {
        x.rope_with_tables(cos, sin)
    } else {
        x.narrow(3, 0, rot).rope_with_tables(cos, sin).concat(x.narrow(3, rot, width - rot), 3)
    }
}

/// Rotates the first `rotary_dim` features of each head.
pub fn apply_partial_rotary(
    x: &LazyTensor,
    rope_cos: &LazyTensor,
    rope_sin: &LazyTensor,
    head_dim: usize,
    rotary_dim: usize,
) -> (r: LazyTensor)
    ensures
        r@ == partly_rotated(x@, rope_cos@, rope_sin@, head_dim as int, rotary_dim as int),
{
    if rotary_dim >= head_dim {
        return x.rope_with_tables(rope_cos, rope_sin);
    }
    let rotated = x.narrow(3, 0, rotary_dim).rope_with_tables(rope_cos, rope_sin);
    rotated.concat(&x.narrow(3, rotary_dim, head_dim - rotary_dim), 3)
}

/// One decoder layer.
pub open spec fn layer_value(
    cfg: &MixFormerConfig,
    w: &MixFormerLayerWeights,
    x: Tensor,
    cos: Tensor,
    sin: Tensor,
) -> Tensor {
    let h = cfg.hidden_size as int;
    let heads = cfg.num_attention_heads as int;
    let d = cfg.width();
    let rot = cfg.rotated();
    let seq = x.dim(1);
    let n = x.layer_norm(w.ln_gain@, w.ln_bias@, h, cfg.layer_norm_eps);
    let qkv = n.affine(w.wqkv@, w.wqkv_bias@, h, 3 * h);
    let q = partly_rotated(qkv.narrow(2, 0, h).split_heads(heads, d), cos, sin, d, rot);
    let k = partly_rotated(qkv.narrow(2, h, h).split_heads(heads, d), cos, sin, d, rot);
    let v = qkv.narrow(2, 2 * h, h).split_heads(heads, d);
    let mask = Tensor::causal_mask(seq).reshape(seq![1, 1, seq, seq]);
    let attn = masked_attention(q, k, v, inv_sqrt64(d as usize), mask).merge_heads().affine(
        w.out_proj@,
        w.out_proj_bias@,
        h,
        h,
    );
    let up = n.affine(w.fc1@, w.fc1_bias@, h, cfg.inner());
    let act = match cfg.hidden_activation {
        MixFormerActivation::Gelu => up.gelu_erf(),
        MixFormerActivation::GeluPytorchTanh => up.gelu(),
    };
    x.add(attn).add(act.affine(w.fc2@, w.fc2_bias@, cfg.inner(), h))
}

/// The first `n` layers, one after the other.
pub open spec fn layers_value(
    cfg: &MixFormerConfig,
    layers: Seq<MixFormerLayerWeights>,
    n: int,
    x: Tensor,
    cos: Tensor,
    sin: Tensor,
) -> Tensor
    decreases n,
{
    if n <= 0 {
        x
    } else {
        layer_value(cfg, &layers[n - 1], layers_value(cfg, layers, n - 1, x, cos, sin), cos, sin)
    }
}

impl MixFormerModel {
    /// Embeddings `(1, seq, hidden_size)` of the tokens.
    pub open spec fn embedded(&self, tokens: Seq<u32>) -> Tensor {
        Tensor::embed_tokens(
            self.weights.token_embedding@,
            self.config.vocab_size as int,
            self.config.hidden_size as int,
            tokens,
        )
    }

    /// Final hidden states of the embeddings of `seq` positions.
    pub open spec fn hidden(&self, embeds: Tensor, start: int, seq: int) -> Tensor {
        let cfg = &self.config;
        let w = &self.weights;
        layers_value(
            cfg,
            w.layers@,
            w.layers@.len() as int,
            embeds,
            Tensor::rope_cos(cfg.rope_theta, start, seq, cfg.rotated()),
            Tensor::rope_sin(cfg.rope_theta, start, seq, cfg.rotated()),
        ).layer_norm(
            w.final_ln_gain@,
            w.final_ln_bias@,
            cfg.hidden_size as int,
            cfg.layer_norm_eps,
        )
    }

    /// The output projection, `[hidden_size, vocab_size]`.
    pub open spec fn head(&self) -> Seq<Scalar> {
        match self.weights.lm_head {
            Some(w) => w@,
            None => tied_head(
                self.weights.token_embedding@,
                self.config.vocab_size as int,
                self.config.hidden_size as int,
            ),
        }
    }

    /// Logits of the embeddings of `seq` positions.
    pub open spec fn logits(&self, embeds: Tensor, start: int, seq: int) -> Tensor {
        self.hidden(embeds, start, seq).affine(
            self.head(),
            self.weights.lm_head_bias@,
            self.config.hidden_size as int,
            self.config.vocab_size as int,
        )
    }

    /// Whether `embeds` is `(batch, seq, hidden_size)`.
    pub open spec fn accepts(&self, embeds: Tensor) -> bool {
        embeds.rank() == 3 && embeds.dim(2) == self.config.hidden_size
    }

    /// Logits `(1, seq, vocab_size)` of the tokens.
    pub fn forward(&self, tokens: &[u32], start_pos: usize) -> (r: Result<LazyTensor, Error>)
        requires
            self.config.valid(),
            tokens@.len() > 0,
        ensures
            outcome(
                r,
                self.logits(self.embedded(tokens@), start_pos as int, tokens@.len() as int),
            ),
    {
        let h = self.embed(tokens);
        MixFormerModel::run_logits(&self.config, &self.weights, &h, start_pos, tokens.len()).finish()
    }

    /// Logits of embeddings `(batch, seq, hidden_size)`.
    pub fn forward_embeds(&self, embeds: &LazyTensor, start_pos: usize) -> (r: Result<
        LazyTensor,
        Error,
    >)
        requires
            self.config.valid(),
            self.accepts(embeds@),
        ensures
            outcome(r, self.logits(embeds@, start_pos as int, embeds@.dim(1))),
    {
        MixFormerModel::run_logits(
            &self.config,
            &self.weights,
            embeds,
            start_pos,
            embeds.dim(1),
        ).finish()
    }

    /// Final hidden states `(1, seq, hidden_size)` of the tokens.
    pub fn forward_hidden(&self, tokens: &[u32], start_pos: usize) -> (r: Result<LazyTensor, Error>)
        requires
            self.config.countable(),
            tokens@.len() > 0,
        ensures
            outcome(
                r,
                self.hidden(self.embedded(tokens@), start_pos as int, tokens@.len() as int),
            ),
    {
        let h = self.embed(tokens);
        MixFormerModel::run(&self.config, &self.weights, &h, start_pos, tokens.len()).finish()
    }

    /// Final hidden states of embeddings `(batch, seq, hidden_size)`.
    pub fn forward_hidden_embeds(&self, embeds: &LazyTensor, start_pos: usize) -> (r: Result<
        LazyTensor,
        Error,
    >)
        requires
            self.config.countable(),
            self.accepts(embeds@),
        ensures
            outcome(r, self.hidden(embeds@, start_pos as int, embeds@.dim(1))),
    {
        MixFormerModel::run(
            &self.config,
            &self.weights,
            embeds,
            start_pos,
            embeds.dim(1),
        ).finish()
    }

    fn embed(&self, tokens: &[u32]) -> (r: LazyTensor)
        ensures
            r@ == self.embedded(tokens@),
    {
        LazyTensor::embed_tokens(
            &self.weights.token_embedding,
            self.config.vocab_size,
            self.config.hidden_size,
            tokens,
        )
    }

    /// Logits of embeddings, given the parts of a model.
    pub(crate) fn run_logits(
        cfg: &MixFormerConfig,
        weights: &MixFormerWeights,
        embeds: &LazyTensor,
        start_pos: usize,
        seq: usize,
    ) -> (r: LazyTensor)
        requires
            cfg.countable(),
        ensures
            r@ == (MixFormerModel { config: *cfg, weights: *weights }).logits(
                embeds@,
                start_pos as int,
                seq as int,
            ),
    {
        let h_norm = MixFormerModel::run(cfg, weights, embeds, start_pos, seq);
        let lm_w = match &weights.lm_head {
            Some(w) => w.data().clone(),
            None => tie_head(&weights.token_embedding, cfg.vocab_size, cfg.hidden_size),
        };
        h_norm.affine(&lm_w, &weights.lm_head_bias, cfg.hidden_size, cfg.vocab_size)
    }

    fn run(
        cfg: &MixFormerConfig,
        weights: &MixFormerWeights,
        embeds: &LazyTensor,
        start_pos: usize,
        seq: usize,
    ) -> (r: LazyTensor)
        requires
            cfg.countable(),
        ensures
            r@ == (MixFormerModel { config: *cfg, weights: *weights }).hidden(
                embeds@,
                start_pos as int,
                seq as int,
            ),
    {
        let rotary_dim: usize = cfg.effective_rotary_dim();
        let (rope_cos, rope_sin) = LazyTensor::rope_tables(
            &cfg.rope_theta,
            start_pos,
            seq,
            rotary_dim,
        );
        let mut h = embeds.clone();
        let mut i: usize = 0;
        while i < weights.layers.len()
            invariant
                cfg.countable(),
                i <= weights.layers@.len(),
                h@ == layers_value(
                    cfg,
                    weights.layers@,
                    i as int,
                    embeds@,
                    rope_cos@,
                    rope_sin@,
                ),
            decreases weights.layers@.len() - i,
        {
            h = MixFormerModel::apply_layer(cfg, &h, &weights.layers[i], &rope_cos, &rope_sin);
            i = i + 1;
        }
        h.layer_norm(
            &weights.final_ln_gain,
            &weights.final_ln_bias,
            cfg.hidden_size,
            &cfg.layer_norm_eps,
        )
    }

    fn apply_layer(
        cfg: &MixFormerConfig,
        x: &LazyTensor,
        layer: &MixFormerLayerWeights,
        rope_cos: &LazyTensor,
        rope_sin: &LazyTensor,
    ) -> (r: LazyTensor)
        requires
            cfg.countable(),
        ensures
            r@ == layer_value(cfg, layer, x@, rope_cos@, rope_sin@),
    {
        let h: usize = cfg.hidden_size;
        let n_heads: usize = cfg.num_attention_heads;
        let head_dim: usize = cfg.head_dim();
        let rotary_dim: usize = cfg.effective_rotary_dim();
        let seq: usize = x.dim(1);
        let x_norm = x.layer_norm(&layer.ln_gain, &layer.ln_bias, h, &cfg.layer_norm_eps);

        let qkv = x_norm.affine(layer.wqkv.data(), &layer.wqkv_bias, h, 3 * h);
        let q = qkv.narrow(2, 0, h).split_heads(n_heads, head_dim);
        let k = qkv.narrow(2, h, h).split_heads(n_heads, head_dim);
        let v = qkv.narrow(2, 2 * h, h).split_heads(n_heads, head_dim);
        let q_r = apply_partial_rotary(&q, rope_cos, rope_sin, head_dim, rotary_dim);
        let k_r = apply_partial_rotary(&k, rope_cos, rope_sin, head_dim, rotary_dim);
        let mask = LazyTensor::causal_mask(seq).reshape4(1, 1, seq, seq);
        let attn_v = attend_masked(&q_r, &k_r, &v, &Scalar::inv_sqrt64(head_dim), &mask);
        let attn_out = attn_v.merge_heads().affine(layer.out_proj.data(), &layer.out_proj_bias, h, h);

        let inner: usize = cfg.inner_dim();
        let fc1_out = x_norm.affine(layer.fc1.data(), &layer.fc1_bias, h, inner);
        let activated = match cfg.hidden_activation {
            MixFormerActivation::Gelu => fc1_out.gelu_erf(),
            MixFormerActivation::GeluPytorchTanh => fc1_out.gelu(),
        };
        let mlp_out = activated.affine(layer.fc2.data(), &layer.fc2_bias, inner, h);
        x.add(&attn_out).add(&mlp_out)
    }
}

impl MixFormerConfig {
    /// All sizes are positive, and for `seq` tokens every tensor can be
    /// addressed.
    pub open spec fn addressable(&self, seq: int) -> bool {
        let h = self.hidden_size as int;
        &&& self.valid()
        &&& h >= 1
        &&& self.inner() >= 1
        &&& self.vocab_size >= 1
        &&& seq >= 1
        &&& seq * seq <= usize::MAX
        &&& seq * h <= usize::MAX
        &&& h * (3 * h) <= usize::MAX
        &&& h * self.inner() <= usize::MAX
        &&& h * self.vocab_size <= usize::MAX
    }
}

impl MixFormerLayerWeights {
    /// Every weight has the size that the configuration declares.
    pub open spec fn sized(&self, cfg: &MixFormerConfig) -> bool {
        let h = cfg.hidden_size as int;
        let inner = cfg.inner();
        &&& self.ln_gain@.len() == h
        &&& self.ln_bias@.len() == h
        &&& self.wqkv@.len() == h * (3 * h)
        &&& self.wqkv_bias@.len() == 3 * h
        &&& self.out_proj@.len() == h * h
        &&& self.out_proj_bias@.len() == h
        &&& self.fc1@.len() == h * inner
        &&& self.fc1_bias@.len() == inner
        &&& self.fc2@.len() == inner * h
        &&& self.fc2_bias@.len() == h
    }
}

impl MixFormerWeights {
    /// Every weight has the size that the configuration declares.
    pub open spec fn sized(&self, cfg: &MixFormerConfig) -> bool {
        let h = cfg.hidden_size as int;
        &&& self.token_embedding@.len() == cfg.vocab_size * h
        &&& forall|i: int| 0 <= i < self.layers@.len() ==> (#[trigger] self.layers@[i]).sized(cfg)
        &&& self.final_ln_gain@.len() == h
        &&& self.final_ln_bias@.len() == h
        &&& self.lm_head matches Some(w) ==> w@.len() == h * cfg.vocab_size
        &&& self.lm_head_bias@.len() == cfg.vocab_size
    }
}

/// Rotated heads keep their extents.
pub proof fn partly_rotated_has(x: Tensor, cos: Tensor, sin: Tensor, heads: int, s: int, width: int, rot: int)
    requires
        has(x, seq![1, heads, s, width]),
        has(cos, seq![s, rot]),
        has(sin, seq![s, rot]),
        0 < rot <= width <= usize::MAX,
        rot % 2 == 0,
    ensures
        has(partly_rotated(x, cos, sin, width, rot), seq![1, heads, s, width]),
{
    broadcast use extents;

    if rot < width {
        let a = x.narrow(3, 0, rot).rope_with_tables(cos, sin);
        let b = x.narrow(3, rot, width - rot);
        assert(a.dims.update(3, 0) =~= b.dims.update(3, 0));
        assert(a.concat(b, 3).dims =~= seq![1, heads, s, width]);
    }
}

/// A layer keeps the extents of its operand.
pub proof fn layer_has(
    cfg: &MixFormerConfig,
    w: &MixFormerLayerWeights,
    x: Tensor,
    cos: Tensor,
    sin: Tensor,
    s: int,
)
    requires
        cfg.addressable(s),
        w.sized(cfg),
        has(x, seq![1, s, cfg.hidden_size as int]),
        has(cos, seq![s, cfg.rotated()]),
        has(sin, seq![s, cfg.rotated()]),
    ensures
        has(layer_value(cfg, w, x, cos, sin), seq![1, s, cfg.hidden_size as int]),
{
    broadcast use extents;

    let h = cfg.hidden_size as int;
    let heads = cfg.num_attention_heads as int;
    let d = cfg.width();
    let rot = cfg.rotated();
    let inner = cfg.inner();
    assert(inner * h == h * inner && h * h <= h * (3 * h)) by (nonlinear_arith)
        requires
            h >= 1,
    ;
    assert(d <= h) by (nonlinear_arith)
        requires
            heads * d == h,
            heads >= 1,
            d >= 0,
    ;
    let n = x.layer_norm(w.ln_gain@, w.ln_bias@, h, cfg.layer_norm_eps);
    let qkv = n.affine(w.wqkv@, w.wqkv_bias@, h, 3 * h);
    let q0 = qkv.narrow(2, 0, h).split_heads(heads, d);
    let k0 = qkv.narrow(2, h, h).split_heads(heads, d);
    let v = qkv.narrow(2, 2 * h, h).split_heads(heads, d);
    assert(q0.dims =~= seq![1, heads, s, d]);
    assert(k0.dims =~= seq![1, heads, s, d]);
    assert(v.dims =~= seq![1, heads, s, d]);
    partly_rotated_has(q0, cos, sin, heads, s, d, rot);
    partly_rotated_has(k0, cos, sin, heads, s, d, rot);
    let q = partly_rotated(q0, cos, sin, d, rot);
    let k = partly_rotated(k0, cos, sin, d, rot);
    products(s, s, 1, 1, 1, 1);
    products(1, 1, s, s, 1, 1);
    assert(1 * 1 * s * s == s * s) by (nonlinear_arith);
    reshape_has(Tensor::causal_mask(s), seq![1, 1, s, s]);
    let mask = Tensor::causal_mask(s).reshape(seq![1, 1, s, s]);
    assert(lies_under(mask.dims, seq![1, heads, s, s]));
    masked_attention_has(q, k, v, inv_sqrt64(d as usize), mask, 1, heads, s, d);
    let attn = masked_attention(q, k, v, inv_sqrt64(d as usize), mask).merge_heads().affine(
        w.out_proj@,
        w.out_proj_bias@,
        h,
        h,
    );
    assert(has(attn, seq![1, s, h]));
    let up = n.affine(w.fc1@, w.fc1_bias@, h, inner);
    assert(has(up, seq![1, s, inner]));
}

pub proof fn layers_have(
    cfg: &MixFormerConfig,
    layers: Seq<MixFormerLayerWeights>,
    n: int,
    x: Tensor,
    cos: Tensor,
    sin: Tensor,
    s: int,
)
    requires
        cfg.addressable(s),
        0 <= n <= layers.len(),
        forall|i: int| 0 <= i < layers.len() ==> (#[trigger] layers[i]).sized(cfg),
        has(x, seq![1, s, cfg.hidden_size as int]),
        has(cos, seq![s, cfg.rotated()]),
        has(sin, seq![s, cfg.rotated()]),
    ensures
        has(layers_value(cfg, layers, n, x, cos, sin), seq![1, s, cfg.hidden_size as int]),
    decreases n,
{
    if n > 0 {
        layers_have(cfg, layers, n - 1, x, cos, sin, s);
        layer_has(cfg, &layers[n - 1], layers_value(cfg, layers, n - 1, x, cos, sin), cos, sin, s);
    }
}

/// On weights of the declared sizes every run over embeddings
/// `(1, seq, hidden_size)` succeeds: the hidden states keep these extents, and
/// the logits are `(1, seq, vocab_size)`.
pub proof fn embeds_run_succeeds(model: &MixFormerModel, embeds: Tensor, start: int, seq: int)
    requires
        model.config.addressable(seq),
        model.weights.sized(&model.config),
        has(embeds, seq![1, seq, model.config.hidden_size as int]),
    ensures
        has(model.hidden(embeds, start, seq), seq![1, seq, model.config.hidden_size as int]),
        has(model.logits(embeds, start, seq), seq![1, seq, model.config.vocab_size as int]),
{
    broadcast use extents;

    let cfg = &model.config;
    let w = &model.weights;
    let h = cfg.hidden_size as int;
    assert(cfg.vocab_size * h == h * cfg.vocab_size) by (nonlinear_arith);
    layers_have(
        cfg,
        w.layers@,
        w.layers@.len() as int,
        embeds,
        Tensor::rope_cos(cfg.rope_theta, start, seq, cfg.rotated()),
        Tensor::rope_sin(cfg.rope_theta, start, seq, cfg.rotated()),
        seq,
    );
}

/// On weights of the declared sizes a run over tokens succeeds, and the logits
/// are `(1, seq, vocab_size)`.
pub proof fn forward_succeeds(model: &MixFormerModel, tokens: Seq<u32>, start: int)
    requires
        model.config.addressable(tokens.len() as int),
        model.weights.sized(&model.config),
    ensures
        has(
            model.hidden(model.embedded(tokens), start, tokens.len() as int),
            seq![1, tokens.len() as int, model.config.hidden_size as int],
        ),
        has(
            model.logits(model.embedded(tokens), start, tokens.len() as int),
            seq![1, tokens.len() as int, model.config.vocab_size as int],
        ),
{
    let cfg = &model.config;
    let h = cfg.hidden_size as int;
    assert(cfg.vocab_size * h == h * cfg.vocab_size) by (nonlinear_arith);
    embed_has(model.weights.token_embedding@, cfg.vocab_size as int, h, tokens);
    embeds_run_succeeds(model, model.embedded(tokens), start, tokens.len() as int);
}

/// A run over the embeddings of tokens has the outcome of the run over the
/// tokens, for the logits and for the hidden states.
pub proof fn embeds_run_matches(
    model: &MixFormerModel,
    tokens: Seq<u32>,
    start: int,
    embeds: LazyTensor,
    by_tokens: Result<LazyTensor, Error>,
    by_embeds: Result<LazyTensor, Error>,
    hidden_by_tokens: Result<LazyTensor, Error>,
    hidden_by_embeds: Result<LazyTensor, Error>,
)
    requires
        outcome(Ok(embeds), model.embedded(tokens)),
        outcome(by_tokens, model.logits(model.embedded(tokens), start, tokens.len() as int)),
        outcome(by_embeds, model.logits(embeds@, start, embeds@.dim(1))),
        outcome(hidden_by_tokens, model.hidden(model.embedded(tokens), start, tokens.len() as int)),
        outcome(hidden_by_embeds, model.hidden(embeds@, start, embeds@.dim(1))),
    ensures
        agree(by_tokens, by_embeds),
        agree(hidden_by_tokens, hidden_by_embeds),
{
    embedding_extents(
        model.weights.token_embedding@,
        model.config.vocab_size as int,
        model.config.hidden_size as int,
        tokens,
    );
}

/// Heads whose first features are turned by their positions.
proof fn partly_rotated_agrees<V>(
    at: At<V>,
    x: Tensor,
    y: Tensor,
    theta: Scalar,
    start: int,
    heads: int,
    width: int,
    rot: int,
    t: int,
    u: int,
    m: int,
)
    requires
        lawful(at),
        has(x, seq![1, heads, t, width]),
        has(y, seq![1, heads, u, width]),
        0 < rot <= width <= usize::MAX,
        rot % 2 == 0,
        m <= t,
        m <= u,
        agrees(at, x, y, 2, m),
    ensures
        ({
            let a = partly_rotated(
                x,
                Tensor::rope_cos(theta, start, t, rot),
                Tensor::rope_sin(theta, start, t, rot),
                width,
                rot,
            );
            let b = partly_rotated(
                y,
                Tensor::rope_cos(theta, start, u, rot),
                Tensor::rope_sin(theta, start, u, rot),
                width,
                rot,
            );
            &&& has(a, seq![1, heads, t, width])
            &&& has(b, seq![1, heads, u, width])
            &&& agrees(at, a, b, 2, m)
        }),
{
    broadcast use extents;

    let (ct, st) = (Tensor::rope_cos(theta, start, t, rot), Tensor::rope_sin(theta, start, t, rot));
    let (cu, su) = (Tensor::rope_cos(theta, start, u, rot), Tensor::rope_sin(theta, start, u, rot));
    partly_rotated_has(x, ct, st, heads, t, width, rot);
    partly_rotated_has(y, cu, su, heads, u, width, rot);
    if rot >= width {
        heads_turn_alike(at, x, y, theta, start, heads, width, t, u, m);
    } else {
        let (fx, fy) = (x.narrow(3, 0, rot), y.narrow(3, 0, rot));
        let (rx, ry) = (x.narrow(3, rot, width - rot), y.narrow(3, rot, width - rot));
        assert(fx.dims =~= seq![1, heads, t, rot]);
        assert(fy.dims =~= seq![1, heads, u, rot]);
        assert forall|j: int| 0 <= j < m implies #[trigger] same(at, fx, fy, 2, j) by {
            assert(same(at, x, y, 2, j));
        }
        heads_turn_alike(at, fx, fy, theta, start, heads, rot, t, u, m);
        let (px, py) = (fx.rope_with_tables(ct, st), fy.rope_with_tables(cu, su));
        assert forall|j: int| 0 <= j < m implies #[trigger] same(at, px.concat(rx, 3), py.concat(ry, 3), 2, j) by {
            assert(same(at, x, y, 2, j));
            assert(same(at, px, py, 2, j));
            assert(same(at, rx, ry, 2, j));
        }
    }
}

/// What a layer makes of its operand `x`, the normed rows `n` and the heads.
pub open spec fn layer_of_heads(
    cfg: &MixFormerConfig,
    w: &MixFormerLayerWeights,
    x: Tensor,
    n: Tensor,
    q: Tensor,
    k: Tensor,
    v: Tensor,
    start: int,
    t: int,
) -> Tensor {
    let h = cfg.hidden_size as int;
    let d = cfg.width();
    let rot = cfg.rotated();
    let cos = Tensor::rope_cos(cfg.rope_theta, start, t, rot);
    let sin = Tensor::rope_sin(cfg.rope_theta, start, t, rot);
    let attn = masked_attention(
        partly_rotated(q, cos, sin, d, rot),
        partly_rotated(k, cos, sin, d, rot),
        v,
        inv_sqrt64(d as usize),
        causal_heads(t),
    ).merge_heads().affine(w.out_proj@, w.out_proj_bias@, h, h);
    let up = n.affine(w.fc1@, w.fc1_bias@, h, cfg.inner());
    let act = match cfg.hidden_activation {
        MixFormerActivation::Gelu => up.gelu_erf(),
        MixFormerActivation::GeluPytorchTanh => up.gelu(),
    };
    x.add(attn).add(act.affine(w.fc2@, w.fc2_bias@, cfg.inner(), h))
}

proof fn layer_of_heads_agrees<V>(
    at: At<V>,
    cfg: &MixFormerConfig,
    w: &MixFormerLayerWeights,
    a: Tensor,
    na: Tensor,
    qa: Tensor,
    ka: Tensor,
    va: Tensor,
    b: Tensor,
    nb: Tensor,
    qb: Tensor,
    kb: Tensor,
    vb: Tensor,
    start: int,
    t: int,
    u: int,
    m: int,
)
    requires
        lawful(at),
        cfg.addressable(t),
        cfg.addressable(u),
        w.sized(cfg),
        has(a, seq![1, t, cfg.hidden_size as int]),
        has(b, seq![1, u, cfg.hidden_size as int]),
        has(na, seq![1, t, cfg.hidden_size as int]),
        has(nb, seq![1, u, cfg.hidden_size as int]),
        has(qa, seq![1, cfg.num_attention_heads as int, t, cfg.width()]),
        has(ka, seq![1, cfg.num_attention_heads as int, t, cfg.width()]),
        has(va, seq![1, cfg.num_attention_heads as int, t, cfg.width()]),
        has(qb, seq![1, cfg.num_attention_heads as int, u, cfg.width()]),
        has(kb, seq![1, cfg.num_attention_heads as int, u, cfg.width()]),
        has(vb, seq![1, cfg.num_attention_heads as int, u, cfg.width()]),
        m <= t,
        m <= u,
        agrees(at, a, b, 1, m),
        agrees(at, na, nb, 1, m),
        agrees(at, qa, qb, 2, m),
        agrees(at, ka, kb, 2, m),
        agrees(at, va, vb, 2, m),
    ensures
        has(
            layer_of_heads(cfg, w, a, na, qa, ka, va, start, t),
            seq![1, t, cfg.hidden_size as int],
        ),
        has(
            layer_of_heads(cfg, w, b, nb, qb, kb, vb, start, u),
            seq![1, u, cfg.hidden_size as int],
        ),
        agrees(
            at,
            layer_of_heads(cfg, w, a, na, qa, ka, va, start, t),
            layer_of_heads(cfg, w, b, nb, qb, kb, vb, start, u),
            1,
            m,
        ),
{
    broadcast use extents;

    let h = cfg.hidden_size as int;
    let heads = cfg.num_attention_heads as int;
    let d = cfg.width();
    let rot = cfg.rotated();
    let inner = cfg.inner();
    let theta = cfg.rope_theta;
    let scale = inv_sqrt64(d as usize);
    assert(inner * h == h * inner && h * h <= h * (3 * h)) by (nonlinear_arith)
        requires
            h >= 1,
    ;
    assert(d <= h) by (nonlinear_arith)
        requires
            heads * d == h,
            heads >= 1,
            d >= 0,
    ;
    partly_rotated_agrees(at, qa, qb, theta, start, heads, d, rot, t, u, m);
    partly_rotated_agrees(at, ka, kb, theta, start, heads, d, rot, t, u, m);
    let (ct, st) = (Tensor::rope_cos(theta, start, t, rot), Tensor::rope_sin(theta, start, t, rot));
    let (cu, su) = (Tensor::rope_cos(theta, start, u, rot), Tensor::rope_sin(theta, start, u, rot));
    let (qa, qb) = (partly_rotated(qa, ct, st, d, rot), partly_rotated(qb, cu, su, d, rot));
    let (ka, kb) = (partly_rotated(ka, ct, st, d, rot), partly_rotated(kb, cu, su, d, rot));
    let (mt, mu) = (causal_heads(t), causal_heads(u));
    causal_heads_have(t, heads);
    causal_heads_have(u, heads);
    attention_joins_alike(at, qa, ka, va, mt, qb, kb, vb, mu, scale, heads, d, t, u, m);
    let ca = masked_attention(qa, ka, va, scale, mt).merge_heads();
    let cb = masked_attention(qb, kb, vb, scale, mu).merge_heads();
    affine_agrees(at, ca, cb, w.out_proj@, w.out_proj_bias@, h, h, t, u, m);
    let oa = ca.affine(w.out_proj@, w.out_proj_bias@, h, h);
    let ob = cb.affine(w.out_proj@, w.out_proj_bias@, h, h);
    sum_agrees(at, a, oa, b, ob, 1, m);
    affine_agrees(at, na, nb, w.fc1@, w.fc1_bias@, h, inner, t, u, m);
    let ua = na.affine(w.fc1@, w.fc1_bias@, h, inner);
    let ub = nb.affine(w.fc1@, w.fc1_bias@, h, inner);
    let (ga, gb) = match cfg.hidden_activation {
        MixFormerActivation::Gelu => (ua.gelu_erf(), ub.gelu_erf()),
        MixFormerActivation::GeluPytorchTanh => (ua.gelu(), ub.gelu()),
    };
    assert forall|j: int| 0 <= j < m implies #[trigger] same(at, ga, gb, 1, j) by {
        assert(same(at, ua, ub, 1, j));
    }
    affine_agrees(at, ga, gb, w.fc2@, w.fc2_bias@, inner, h, t, u, m);
    sum_agrees(
        at,
        a.add(oa),
        ga.affine(w.fc2@, w.fc2_bias@, inner, h),
        b.add(ob),
        gb.affine(w.fc2@, w.fc2_bias@, inner, h),
        1,
        m,
    );
}

/// A third of the fused projection, by heads.
proof fn third_agrees<V>(
    at: At<V>,
    x: Tensor,
    y: Tensor,
    from: int,
    h: int,
    heads: int,
    d: int,
    t: int,
    u: int,
    m: int,
)
    requires
        lawful(at),
        has(x, seq![1, t, 3 * h]),
        has(y, seq![1, u, 3 * h]),
        heads * d == h,
        h >= 1,
        0 <= from <= 2 * h,
        agrees(at, x, y, 1, m),
    ensures
        has(x.narrow(2, from, h).split_heads(heads, d), seq![1, heads, t, d]),
        has(y.narrow(2, from, h).split_heads(heads, d), seq![1, heads, u, d]),
        agrees(
            at,
            x.narrow(2, from, h).split_heads(heads, d),
            y.narrow(2, from, h).split_heads(heads, d),
            2,
            m,
        ),
{
    broadcast use extents;

    let (nx, ny) = (x.narrow(2, from, h), y.narrow(2, from, h));
    assert(nx.dims =~= seq![1, t, h]);
    assert(ny.dims =~= seq![1, u, h]);
    assert forall|j: int| 0 <= j < m implies #[trigger] same(at, nx, ny, 1, j) by {
        assert(same(at, x, y, 1, j));
    }
    split_agrees(at, nx, ny, heads, d, m);
}

/// The first `n` layers over `t` positions, with their tables.
pub open spec fn layers_over(
    cfg: &MixFormerConfig,
    layers: Seq<MixFormerLayerWeights>,
    n: int,
    x: Tensor,
    start: int,
    t: int,
) -> Tensor {
    layers_value(
        cfg,
        layers,
        n,
        x,
        Tensor::rope_cos(cfg.rope_theta, start, t, cfg.rotated()),
        Tensor::rope_sin(cfg.rope_theta, start, t, cfg.rotated()),
    )
}

proof fn causal_heads_have(s: int, heads: int)
    requires
        s >= 1,
        s * s <= usize::MAX,
    ensures
        has(causal_heads(s), seq![1, 1, s, s]),
        lies_under(seq![1, 1, s, s], seq![1, heads, s, s]),
{
    broadcast use extents;

    products(s, s, 1, 1, 1, 1);
    products(1, 1, s, s, 1, 1);
    assert(1 * 1 * s * s == s * s) by (nonlinear_arith);
    reshape_has(Tensor::causal_mask(s), seq![1, 1, s, s]);
}

pub proof fn layers_agree<V>(
    at: At<V>,
    cfg: &MixFormerConfig,
    layers: Seq<MixFormerLayerWeights>,
    n: int,
    x: Tensor,
    y: Tensor,
    start: int,
    t: int,
    u: int,
    m: int,
)
    requires
        lawful(at),
        cfg.addressable(t),
        cfg.addressable(u),
        0 <= n <= layers.len(),
        forall|i: int| 0 <= i < layers.len() ==> (#[trigger] layers[i]).sized(cfg),
        has(x, seq![1, t, cfg.hidden_size as int]),
        has(y, seq![1, u, cfg.hidden_size as int]),
        m <= t,
        m <= u,
        agrees(at, x, y, 1, m),
    ensures
        has(layers_over(cfg, layers, n, x, start, t), seq![1, t, cfg.hidden_size as int]),
        has(layers_over(cfg, layers, n, y, start, u), seq![1, u, cfg.hidden_size as int]),
        agrees(
            at,
            layers_over(cfg, layers, n, x, start, t),
            layers_over(cfg, layers, n, y, start, u),
            1,
            m,
        ),
    decreases n,
{
    broadcast use extents;

    if n > 0 {
        layers_agree(at, cfg, layers, n - 1, x, y, start, t, u, m);
        let h = cfg.hidden_size as int;
        let heads = cfg.num_attention_heads as int;
        let d = cfg.width();
        let w = &layers[n - 1];
        let a = layers_over(cfg, layers, n - 1, x, start, t);
        let b = layers_over(cfg, layers, n - 1, y, start, u);
        layer_norm_agrees(at, a, b, w.ln_gain@, w.ln_bias@, h, cfg.layer_norm_eps, t, u, m);
        let na = a.layer_norm(w.ln_gain@, w.ln_bias@, h, cfg.layer_norm_eps);
        let nb = b.layer_norm(w.ln_gain@, w.ln_bias@, h, cfg.layer_norm_eps);
        affine_agrees(at, na, nb, w.wqkv@, w.wqkv_bias@, h, 3 * h, t, u, m);
        let fa = na.affine(w.wqkv@, w.wqkv_bias@, h, 3 * h);
        let fb = nb.affine(w.wqkv@, w.wqkv_bias@, h, 3 * h);
        third_agrees(at, fa, fb, 0, h, heads, d, t, u, m);
        third_agrees(at, fa, fb, h, h, heads, d, t, u, m);
        third_agrees(at, fa, fb, 2 * h, h, heads, d, t, u, m);
        let qa = fa.narrow(2, 0, h).split_heads(heads, d);
        let qb = fb.narrow(2, 0, h).split_heads(heads, d);
        let ka = fa.narrow(2, h, h).split_heads(heads, d);
        let kb = fb.narrow(2, h, h).split_heads(heads, d);
        let va = fa.narrow(2, 2 * h, h).split_heads(heads, d);
        let vb = fb.narrow(2, 2 * h, h).split_heads(heads, d);
        layer_of_heads_agrees(at, cfg, w, a, na, qa, ka, va, b, nb, qb, kb, vb, start, t, u, m);
    }
}

/// The final states and the logits of a position depend on the tokens up to it:
/// sequences that begin alike have states and logits that begin alike, whatever
/// follows.
pub proof fn logits_are_causal<V>(
    at: At<V>,
    model: &MixFormerModel,
    a: Seq<u32>,
    b: Seq<u32>,
    start: int,
    m: int,
)
    requires
        lawful(at),
        model.config.addressable(a.len() as int),
        model.config.addressable(b.len() as int),
        model.weights.sized(&model.config),
        begin_alike(a, b, m),
    ensures
        agrees(
            at,
            model.hidden(model.embedded(a), start, a.len() as int),
            model.hidden(model.embedded(b), start, b.len() as int),
            1,
            m,
        ),
        agrees(
            at,
            model.logits(model.embedded(a), start, a.len() as int),
            model.logits(model.embedded(b), start, b.len() as int),
            1,
            m,
        ),
{
    let cfg = &model.config;
    let w = &model.weights;
    let h = cfg.hidden_size as int;
    let v = cfg.vocab_size as int;
    let (t, u) = (a.len() as int, b.len() as int);
    let n = w.layers@.len() as int;
    assert(v * h == h * v) by (nonlinear_arith);
    embed_has(w.token_embedding@, v, h, a);
    embed_has(w.token_embedding@, v, h, b);
    embeddings_agree(at, w.token_embedding@, v, h, a, b, m);
    let (ea, eb) = (model.embedded(a), model.embedded(b));
    layers_agree(at, cfg, w.layers@, n, ea, eb, start, t, u, m);
    layer_norm_agrees(
        at,
        layers_over(cfg, w.layers@, n, ea, start, t),
        layers_over(cfg, w.layers@, n, eb, start, u),
        w.final_ln_gain@,
        w.final_ln_bias@,
        h,
        cfg.layer_norm_eps,
        t,
        u,
        m,
    );
    affine_agrees(
        at,
        model.hidden(ea, start, t),
        model.hidden(eb, start, u),
        model.head(),
        w.lm_head_bias@,
        h,
        v,
        t,
        u,
        m,
    );
}

/// The layer with three projections in the place of the fused one: the columns of
/// queries, keys and values each by themselves.
pub open spec fn unfused_layer_value(
    cfg: &MixFormerConfig,
    w: &MixFormerLayerWeights,
    x: Tensor,
    start: int,
    t: int,
) -> Tensor {
    let n = x.layer_norm(w.ln_gain@, w.ln_bias@, cfg.hidden_size as int, cfg.layer_norm_eps);
    layer_of_heads(
        cfg,
        w,
        x,
        n,
        own_heads(cfg, w, n, 0),
        own_heads(cfg, w, n, cfg.hidden_size as int),
        own_heads(cfg, w, n, 2 * cfg.hidden_size),
        start,
        t,
    )
}

/// Heads projected by the columns from `from` on alone.
pub open spec fn own_heads(cfg: &MixFormerConfig, w: &MixFormerLayerWeights, n: Tensor, from: int) -> Tensor {
    let h = cfg.hidden_size as int;
    n.affine(
        columns(w.wqkv@, h, 3 * h, from, h),
        w.wqkv_bias@.subrange(from, from + h),
        h,
        h,
    ).split_heads(cfg.num_attention_heads as int, cfg.width())
}

proof fn own_heads_agree<V>(
    at: At<V>,
    cfg: &MixFormerConfig,
    w: &MixFormerLayerWeights,
    n: Tensor,
    from: int,
    t: int,
)
    requires
        lawful(at),
        cfg.addressable(t),
        w.sized(cfg),
        has(n, seq![1, t, cfg.hidden_size as int]),
        0 <= from <= 2 * cfg.hidden_size,
    ensures
        ({
            let h = cfg.hidden_size as int;
            let heads = cfg.num_attention_heads as int;
            let d = cfg.width();
            let fused = n.affine(w.wqkv@, w.wqkv_bias@, h, 3 * h).narrow(2, from, h).split_heads(heads, d);
            &&& has(fused, seq![1, heads, t, d])
            &&& has(own_heads(cfg, w, n, from), seq![1, heads, t, d])
            &&& agrees(at, fused, own_heads(cfg, w, n, from), 2, t)
        }),
{
    broadcast use extents;

    let h = cfg.hidden_size as int;
    let heads = cfg.num_attention_heads as int;
    let d = cfg.width();
    let cols = columns(w.wqkv@, h, 3 * h, from, h);
    let part = w.wqkv_bias@.subrange(from, from + h);
    assert(h * h <= h * (3 * h) && h * h >= 0) by (nonlinear_arith)
        requires
            h >= 1,
    ;
    let l = n.linear(w.wqkv@, h, 3 * h);
    let o = n.linear(cols, h, h);
    let whole = Tensor::constant(w.wqkv_bias@, seq![3 * h]);
    let own = Tensor::constant(part, seq![h]);
    let cut = l.narrow(2, from, h);
    let fused = l.broadcast_add(whole).narrow(2, from, h);
    assert(cut.dims =~= seq![1, t, h]);
    assert(fused.dims =~= seq![1, t, h]);
    assert(has(o.broadcast_add(own), seq![1, t, h]));
    assert(seq![w.wqkv_bias@.len() as int] =~= seq![3 * h]);
    assert(seq![part.len() as int] =~= seq![h]);
    assert forall|j: int| 0 <= j < t implies #[trigger] same(at, fused, o.broadcast_add(own), 1, j) by {
        assert(same(at, l.narrow(2, from, h), n.linear(cols, h, h), 1, j));
        assert(same(
            at,
            l.broadcast_add(Tensor::constant(w.wqkv_bias@, seq![3 * h])).narrow(2, from, h),
            cut.add_trailing_bias(part),
            1,
            j,
        ));
        assert(same(at, cut.broadcast_add(own), o.broadcast_add(own), 1, j));
    }
    split_agrees(at, fused, o.broadcast_add(own), heads, d, t);
}

/// Slices of the fused projection give what three projections of their own give:
/// the layer is the same.
pub proof fn fused_projection_matches<V>(
    at: At<V>,
    cfg: &MixFormerConfig,
    w: &MixFormerLayerWeights,
    x: Tensor,
    start: int,
    t: int,
)
    requires
        lawful(at),
        cfg.addressable(t),
        w.sized(cfg),
        has(x, seq![1, t, cfg.hidden_size as int]),
    ensures
        agrees(
            at,
            layer_value(
                cfg,
                w,
                x,
                Tensor::rope_cos(cfg.rope_theta, start, t, cfg.rotated()),
                Tensor::rope_sin(cfg.rope_theta, start, t, cfg.rotated()),
            ),
            unfused_layer_value(cfg, w, x, start, t),
            1,
            t,
        ),
{
    broadcast use extents;

    let h = cfg.hidden_size as int;
    let heads = cfg.num_attention_heads as int;
    let d = cfg.width();
    let n = x.layer_norm(w.ln_gain@, w.ln_bias@, h, cfg.layer_norm_eps);
    assert(has(n, seq![1, t, h]));
    own_heads_agree(at, cfg, w, n, 0, t);
    own_heads_agree(at, cfg, w, n, h, t);
    own_heads_agree(at, cfg, w, n, 2 * h, t);
    let fused = n.affine(w.wqkv@, w.wqkv_bias@, h, 3 * h);
    assert forall|j: int| 0 <= j < t implies #[trigger] same(at, x, x, 1, j) by {}
    assert forall|j: int| 0 <= j < t implies #[trigger] same(at, n, n, 1, j) by {}
    layer_of_heads_agrees(
        at,
        cfg,
        w,
        x,
        n,
        fused.narrow(2, 0, h).split_heads(heads, d),
        fused.narrow(2, h, h).split_heads(heads, d),
        fused.narrow(2, 2 * h, h).split_heads(heads, d),
        x,
        n,
        own_heads(cfg, w, n, 0),
        own_heads(cfg, w, n, h),
        own_heads(cfg, w, n, 2 * h),
        start,
        t,
        t,
        t,
    );
}

} // verus!
