//! MetaVoice: a causal decoder that predicts audio tokens from text tokens and
//! a speaker embedding.
//!
//! The speaker vector is projected to the model width and added to every token
//! embedding. After the last layer, the hidden state of the last position goes
//! through one head for each codebook.

use crate::checkpoint::{
    decimal, join, loaded_matrix, loaded_rows, numbered, transpose_rows, Checkpoint, Loader,
};
use crate::common::{
    agree, attend_masked, build_causal_mask, causal_data, causal_tensor, embedding_extents,
    feed_swiglu, heads_are_shared, mask_has, masked_attention, masked_attention_has, stack, stacked,
    stacked_has, swiglu, swiglu_has, views, LayerWeights,
};
use crate::error::{Error, Fault, LoadError};
use crate::extents::{
    addressable_fits, broadcast_to_has, embed_has, extents, has, lies_under, products, reshape_has,
};
use crate::lazy::{outcome, LazyTensor, Tensor, WeightStorage};
use crate::scalar::{inv_sqrt64, Data, Scalar};
use crate::shape::{fits, numel, product};
use std::sync::Arc;
use vstd::prelude::*;

verus! {

#[derive(Debug, Clone)]
pub struct MetaVoiceConfig {
    pub vocab_size: usize,
    pub hidden_size: usize,
    pub intermediate_size: usize,
    pub num_hidden_layers: usize,
    pub num_attention_heads: usize,
    pub num_key_value_heads: usize,
    pub head_dim: usize,
    pub num_codebooks: usize,
    pub speaker_emb_dim: usize,
    pub max_position_embeddings: usize,
    pub rms_norm_eps: Scalar,
    pub rope_theta: Scalar,
}

impl MetaVoiceConfig {
    /// Width of the keys, and of the values.
    pub open spec fn kv(&self) -> int {
        self.num_key_value_heads * self.head_dim
    }

    /// The heads fill the model width, and the key heads share the query heads
    /// evenly.
    pub open spec fn valid(&self) -> bool {
        &&& self.num_attention_heads * self.head_dim == self.hidden_size
        &&& self.num_key_value_heads > 0
        &&& self.num_attention_heads % self.num_key_value_heads == 0
        &&& self.kv() <= usize::MAX
    }

    /// The stored tensors can be counted.
    pub open spec fn loadable(&self) -> bool {
        &&& self.vocab_size * self.hidden_size <= usize::MAX
        &&& self.hidden_size * self.speaker_emb_dim <= usize::MAX
        &&& self.kv() <= usize::MAX
        &&& self.hidden_size + 2 * self.kv() <= usize::MAX
        &&& (self.hidden_size + 2 * self.kv()) * self.hidden_size <= usize::MAX
        &&& self.hidden_size * self.hidden_size <= usize::MAX
        &&& self.hidden_size * self.intermediate_size <= usize::MAX
        &&& self.intermediate_size * self.hidden_size <= usize::MAX
    }

    /// The `metavoice-1b-v0.1` sizes, with four codebooks.
    pub fn metavoice_1b_v0_1() -> (r: Self)
        ensures
            r == (MetaVoiceConfig {
                vocab_size: 2562,
                hidden_size: 2048,
                intermediate_size: 5632,
                num_hidden_layers: 24,
                num_attention_heads: 16,
                num_key_value_heads: 16,
                head_dim: 128,
                num_codebooks: 4,
                speaker_emb_dim: 256,
                max_position_embeddings: 2048,
                rms_norm_eps: Scalar::F64(0x3EE4_F8B5_88E3_68F1),
                rope_theta: Scalar::F64(0x40C3_8800_0000_0000),
            }),
            r.valid(),
            r.loadable(),
    {
        MetaVoiceConfig {
            vocab_size: 2562,
            hidden_size: 2048,
            intermediate_size: 5632,
            num_hidden_layers: 24,
            num_attention_heads: 16,
            num_key_value_heads: 16,
            head_dim: 128,
            num_codebooks: 4,
            speaker_emb_dim: 256,
            max_position_embeddings: 2048,
            rms_norm_eps: Scalar::F64(0x3EE4_F8B5_88E3_68F1),
            rope_theta: Scalar::F64(0x40C3_8800_0000_0000),
        }
    }
}

#[derive(Debug, Clone)]
pub struct MetaVoiceWeights {
    /// `[vocab_size, hidden_size]`.
    pub token_embedding: Data,
    /// `[speaker_emb_dim, hidden_size]`.
    pub speaker_proj: WeightStorage,
    pub layers: Vec<LayerWeights>,
    /// `[hidden_size]`.
    pub final_norm_gain: Data,
    /// One `[hidden_size, vocab_size]` matrix for each codebook.
    pub lm_heads: Vec<WeightStorage>,
}

#[derive(Debug, Clone)]
pub struct MetaVoiceModel {
    pub config: MetaVoiceConfig,
    pub weights: MetaVoiceWeights,
}

/// The speaker vector as `(1, 1, speaker_emb_dim)`. It may come with up to two
/// leading axes of one position.
pub open spec fn speaker_value(cfg: &MetaVoiceConfig, spk: Tensor) -> Tensor {
    let d = cfg.speaker_emb_dim as int;
    if 1 <= spk.rank() <= 3 && spk.dims.last() == d && fits(spk.dims) && product(spk.dims) == d {
        spk.reshape(seq![1, 1, d])
    } else {
        Tensor::invalid(Error::InputShape)
    }
}

/// One decoder layer.
pub open spec fn layer_value(
    cfg: &MetaVoiceConfig,
    w: &LayerWeights,
    x: Tensor,
    cos: Tensor,
    sin: Tensor,
    mask: Tensor,
) -> Tensor {
    let h = cfg.hidden_size as int;
    let heads = cfg.num_attention_heads as int;
    let kv_heads = cfg.num_key_value_heads as int;
    let d = cfg.head_dim as int;
    let rep = heads / kv_heads;
    let n = x.rms_norm(w.attn_norm_gain@, w.attn_norm_gain@.len() as int, cfg.rms_norm_eps);
    let q = n.linear(w.attn_q@, h, h).split_heads(heads, d).rope_with_tables(cos, sin);
    let k = n.linear(w.attn_k@, h, cfg.kv()).split_heads(kv_heads, d).rope_with_tables(cos, sin);
    let v = n.linear(w.attn_v@, h, cfg.kv()).split_heads(kv_heads, d);
    let ctx = masked_attention(
        q,
        k.repeat_interleave(1, rep),
        v.repeat_interleave(1, rep),
        inv_sqrt64(cfg.head_dim),
        mask,
    );
    let h1 = x.add(ctx.merge_heads().linear(w.attn_o@, h, h));
    h1.add(
        swiglu(
            h1.rms_norm(w.ffn_norm_gain@, w.ffn_norm_gain@.len() as int, cfg.rms_norm_eps),
            w.ffn_gate@,
            w.ffn_up@,
            w.ffn_down@,
            h,
            cfg.intermediate_size as int,
        ),
    )
}

/// The first `n` layers, one after the other.
pub open spec fn layers_value(
    cfg: &MetaVoiceConfig,
    layers: Seq<LayerWeights>,
    n: int,
    x: Tensor,
    cos: Tensor,
    sin: Tensor,
    mask: Tensor,
) -> Tensor
    decreases n,
{
    if n <= 0 {
        x
    } else {
        layer_value(
            cfg,
            &layers[n - 1],
            layers_value(cfg, layers, n - 1, x, cos, sin, mask),
            cos,
            sin,
            mask,
        )
    }
}

/// The logits of one codebook at the last position.
pub open spec fn head_value(cfg: &MetaVoiceConfig, head: Seq<Scalar>, last: Tensor) -> Tensor {
    last.linear(head, cfg.hidden_size as int, cfg.vocab_size as int).squeeze(1)
}

impl MetaVoiceModel {
    /// Final hidden states of `embeds (batch, seq, hidden_size)`.
    pub open spec fn hidden(&self, embeds: Tensor, spk: Tensor, start: int, batch: int, seq: int) -> Tensor {
        let cfg = &self.config;
        let h = cfg.hidden_size as int;
        let spk_all = speaker_value(cfg, spk).linear(
            self.weights.speaker_proj@,
            cfg.speaker_emb_dim as int,
            h,
        ).broadcast_to(seq![batch, seq, h]);
        layers_value(
            cfg,
            self.weights.layers@,
            self.weights.layers@.len() as int,
            embeds.add(spk_all),
            Tensor::rope_cos(cfg.rope_theta, start, seq, cfg.head_dim as int),
            Tensor::rope_sin(cfg.rope_theta, start, seq, cfg.head_dim as int),
            causal_tensor(seq),
        ).rms_norm(
            self.weights.final_norm_gain@,
            self.weights.final_norm_gain@.len() as int,
            cfg.rms_norm_eps,
        )
    }

    /// Logits `(batch, num_codebooks, vocab_size)` of the last position.
    pub open spec fn embeds_logits(
        &self,
        embeds: Tensor,
        spk: Tensor,
        start: int,
        batch: int,
        seq: int,
    ) -> Tensor {
        let last = self.hidden(embeds, spk, start, batch, seq).narrow(1, seq - 1, 1);
        stacked(
            self.weights.lm_heads@.map_values(
                |head: WeightStorage| head_value(&self.config, head@, last),
            ),
            1,
        )
    }

    /// Logits `(1, num_codebooks, vocab_size)` of the last of the tokens.
    pub open spec fn logits(&self, tokens: Seq<u32>, spk: Tensor, start: int) -> Tensor {
        self.embeds_logits(
            Tensor::embed_tokens(
                self.weights.token_embedding@,
                self.config.vocab_size as int,
                self.config.hidden_size as int,
                tokens,
            ),
            spk,
            start,
            1,
            tokens.len() as int,
        )
    }

    /// Logits `(1, num_codebooks, vocab_size)` of the last token, given the
    /// speaker embedding. The first token stands at position `start_pos`.
    pub fn forward(&self, tokens: &[u32], speaker_embed: &LazyTensor, start_pos: usize) -> (r: Result<
        LazyTensor,
        Error,
    >)
        requires
            self.config.valid(),
            tokens@.len() > 0,
            tokens@.len() * tokens@.len() <= usize::MAX,
        ensures
            outcome(r, self.logits(tokens@, speaker_embed@, start_pos as int)),
    {
        let cfg = &self.config;
        let h = LazyTensor::embed_tokens(
            &self.weights.token_embedding,
            cfg.vocab_size,
            cfg.hidden_size,
            tokens,
        );
        self.run(&h, speaker_embed, start_pos, 1, tokens.len()).finish()
    }

    /// The same from embeddings `(batch, seq, hidden_size)`.
    pub fn forward_embeds(&self, embeds: &LazyTensor, speaker_embed: &LazyTensor, start_pos: usize) -> (r:
        Result<LazyTensor, Error>)
        requires
            self.config.valid(),
            embeds@.rank() == 3,
            embeds@.dim(2) == self.config.hidden_size,
            embeds@.dim(1) > 0,
            embeds@.dim(1) * embeds@.dim(1) <= usize::MAX,
        ensures
            outcome(
                r,
                self.embeds_logits(
                    embeds@,
                    speaker_embed@,
                    start_pos as int,
                    embeds@.dim(0),
                    embeds@.dim(1),
                ),
            ),
    {
        self.run(embeds, speaker_embed, start_pos, embeds.dim(0), embeds.dim(1)).finish()
    }

    fn run(
        &self,
        embeds: &LazyTensor,
        speaker_embed: &LazyTensor,
        start_pos: usize,
        batch: usize,
        seq: usize,
    ) -> (r: LazyTensor)
        requires
            self.config.valid(),
            seq > 0,
            seq * seq <= usize::MAX,
        ensures
            r@ == self.embeds_logits(
                embeds@,
                speaker_embed@,
                start_pos as int,
                batch as int,
                seq as int,
            ),
    {
        let cfg = &self.config;
        let weights = &self.weights;
        let spk = self.anchor_speaker(speaker_embed);
        let spk_bc = weights.speaker_proj.apply_linear(
            &spk,
            cfg.speaker_emb_dim,
            cfg.hidden_size,
        ).broadcast_to3(batch, seq, cfg.hidden_size);
        let mut h = embeds.add(&spk_bc);
        let ghost h0 = h@;
        let (rope_cos, rope_sin) = LazyTensor::rope_tables(
            &cfg.rope_theta,
            start_pos,
            seq,
            cfg.head_dim,
        );
        let mask = build_causal_mask(seq);
        let mut i: usize = 0;
        while i < weights.layers.len()
            invariant
                cfg == &self.config,
                weights == &self.weights,
                cfg.valid(),
                i <= weights.layers@.len(),
                h@ == layers_value(
                    cfg,
                    weights.layers@,
                    i as int,
                    h0,
                    rope_cos@,
                    rope_sin@,
                    mask@,
                ),
            decreases weights.layers@.len() - i,
        {
            h = self.apply_layer(&h, &weights.layers[i], &rope_cos, &rope_sin, &mask);
            i = i + 1;
        }
        let last = h.rms_norm(
            &weights.final_norm_gain,
            weights.final_norm_gain.len(),
            &cfg.rms_norm_eps,
        ).narrow(1, seq - 1, 1);
        let ghost want = weights.lm_heads@.map_values(
            |head: WeightStorage| head_value(cfg, head@, last@),
        );
        let mut per_codebook: Vec<LazyTensor> = Vec::new();
        let mut c: usize = 0;
        while c < weights.lm_heads.len()
            invariant
                cfg == &self.config,
                weights == &self.weights,
                c <= weights.lm_heads@.len(),
                want == weights.lm_heads@.map_values(
                    |head: WeightStorage| head_value(cfg, head@, last@),
                ),
                per_codebook@.len() == c,
                forall|j: int| 0 <= j < c ==> #[trigger] per_codebook@[j]@ == want[j],
            decreases weights.lm_heads@.len() - c,
        {
            per_codebook.push(
                weights.lm_heads[c].apply_linear(&last, cfg.hidden_size, cfg.vocab_size).squeeze(1),
            );
            c = c + 1;
        }
        assert(views(per_codebook@) =~= want);
        stack(&per_codebook, 1)
    }

    fn anchor_speaker(&self, speaker_embed: &LazyTensor) -> (r: LazyTensor)
        ensures
            r@ == speaker_value(&self.config, speaker_embed@),
    {
        let d: usize = self.config.speaker_emb_dim;
        let dims = speaker_embed.dims();
        let rank: usize = dims.len();
        if rank < 1 || rank > 3 || dims[rank - 1] != d {
            return LazyTensor::invalid(Error::InputShape);
        }
        match numel(dims.as_slice()) {
            None => LazyTensor::invalid(Error::InputShape),
            Some(n) => if n == d {
                speaker_embed.reshape3(1, 1, d)
            } else {
                LazyTensor::invalid(Error::InputShape)
            },
        }
    }

    fn apply_layer(
        &self,
        x: &LazyTensor,
        layer: &LayerWeights,
        rope_cos: &LazyTensor,
        rope_sin: &LazyTensor,
        mask: &LazyTensor,
    ) -> (r: LazyTensor)
        requires
            self.config.valid(),
        ensures
            r@ == layer_value(&self.config, layer, x@, rope_cos@, rope_sin@, mask@),
    {
        let cfg = &self.config;
        let h: usize = cfg.hidden_size;
        let kv_dim: usize = cfg.num_key_value_heads * cfg.head_dim;
        let x_norm = x.rms_norm(&layer.attn_norm_gain, layer.attn_norm_gain.len(), &cfg.rms_norm_eps);

        let q = layer.attn_q.apply_linear(&x_norm, h, h).split_heads(
            cfg.num_attention_heads,
            cfg.head_dim,
        ).rope_with_tables(rope_cos, rope_sin);
        let k = layer.attn_k.apply_linear(&x_norm, h, kv_dim).split_heads(
            cfg.num_key_value_heads,
            cfg.head_dim,
        ).rope_with_tables(rope_cos, rope_sin);
        let v = layer.attn_v.apply_linear(&x_norm, h, kv_dim).split_heads(
            cfg.num_key_value_heads,
            cfg.head_dim,
        );

        let n_rep: usize = cfg.num_attention_heads / cfg.num_key_value_heads;
        let k_full = k.repeat_interleave(1, n_rep);
        let v_full = v.repeat_interleave(1, n_rep);
        let attn_v = attend_masked(&q, &k_full, &v_full, &Scalar::inv_sqrt64(cfg.head_dim), mask);
        let attn_out = layer.attn_o.apply_linear(&attn_v.merge_heads(), h, h);
        let h1 = x.add(&attn_out);

        let h1_norm = h1.rms_norm(&layer.ffn_norm_gain, layer.ffn_norm_gain.len(), &cfg.rms_norm_eps);
        h1.add(
            &feed_swiglu(
                &h1_norm,
                &layer.ffn_gate,
                &layer.ffn_up,
                &layer.ffn_down,
                h,
                cfg.intermediate_size,
            ),
        )
    }
}

/// Splits a matrix `(q_out + 2 * kv_out, in_dim)` whose rows are those of the
/// query, key and value projections into the three projections, each laid out
/// as `(in_dim, out)`. What follows these rows does not count.
pub fn split_fused_wqkv(fused: &Vec<Scalar>, q_out: usize, kv_out: usize, in_dim: usize) -> (r: (
    Vec<Scalar>,
    Vec<Scalar>,
    Vec<Scalar>,
))
    requires
        q_out + 2 * kv_out <= usize::MAX,
        fused@.len() >= (q_out + 2 * kv_out) * in_dim,
    ensures
        ({
            let q = q_out as int;
            let kv = kv_out as int;
            let n = in_dim as int;
            &&& r.0@ == crate::checkpoint::transposed(fused@.subrange(0 * n, (0 + q) * n), q, n)
            &&& r.1@ == crate::checkpoint::transposed(fused@.subrange(q * n, (q + kv) * n), kv, n)
            &&& r.2@ == crate::checkpoint::transposed(
                fused@.subrange((q + kv) * n, (q + kv + kv) * n),
                kv,
                n,
            )
        }),
{
    let total: usize = q_out + 2 * kv_out;
    (
        transpose_rows(fused, 0, q_out, total, in_dim),
        transpose_rows(fused, q_out, kv_out, total, in_dim),
        transpose_rows(fused, q_out + kv_out, kv_out, total, in_dim),
    )
}

/// Name prefix of layer `i`.
pub open spec fn layer_prefix(i: int) -> Seq<char> {
    "layers."@ + decimal(i)
}

/// The failure, after an earlier one, to load layer `i`.
pub open spec fn layer_need(st: &Checkpoint, cfg: &MetaVoiceConfig, e: Option<Fault>, i: int) -> Option<Fault> {
    let h = cfg.hidden_size as int;
    let inner = cfg.intermediate_size as int;
    let p = layer_prefix(i);
    let e = st.need_len(e, p + ".attention.wqkv.weight"@, (h + 2 * cfg.kv()) * h);
    let e = st.need_len(e, p + ".attention.wo.weight"@, h * h);
    let e = st.need_len(e, p + ".feed_forward.swiglu.w1.weight"@, inner * h);
    let e = st.need_len(e, p + ".feed_forward.swiglu.w3.weight"@, inner * h);
    let e = st.need_len(e, p + ".feed_forward.w2.weight"@, h * inner);
    let e = st.need_len(e, p + ".attention_norm.weight"@, h);
    st.need_len(e, p + ".ffn_norm.weight"@, h)
}

/// The failure, after an earlier one, to load the first `n` layers.
pub open spec fn layers_need(
    st: &Checkpoint,
    cfg: &MetaVoiceConfig,
    e: Option<Fault>,
    n: int,
) -> Option<Fault>
    decreases n,
{
    if n <= 0 {
        e
    } else {
        layer_need(st, cfg, layers_need(st, cfg, e, n - 1), n - 1)
    }
}

/// Whether `w` holds layer `i` of the checkpoint. The fused projection is split
/// into query, key and value; no projection has a bias.
pub open spec fn layer_loaded(st: &Checkpoint, cfg: &MetaVoiceConfig, i: int, w: &LayerWeights) -> bool {
    let h = cfg.hidden_size as int;
    let kv = cfg.kv();
    let inner = cfg.intermediate_size as int;
    let p = layer_prefix(i);
    let fused = p + ".attention.wqkv.weight"@;
    &&& w.attn_q@ == loaded_rows(st, fused, 0, h, h + 2 * kv, h)
    &&& w.attn_k@ == loaded_rows(st, fused, h, kv, h + 2 * kv, h)
    &&& w.attn_v@ == loaded_rows(st, fused, h + kv, kv, h + 2 * kv, h)
    &&& w.attn_q_bias is None
    &&& w.attn_k_bias is None
    &&& w.attn_v_bias is None
    &&& w.attn_o@ == loaded_matrix(st, p + ".attention.wo.weight"@, h, h)
    &&& w.ffn_gate@ == loaded_matrix(st, p + ".feed_forward.swiglu.w1.weight"@, inner, h)
    &&& w.ffn_up@ == loaded_matrix(st, p + ".feed_forward.swiglu.w3.weight"@, inner, h)
    &&& w.ffn_down@ == loaded_matrix(st, p + ".feed_forward.w2.weight"@, h, inner)
    &&& w.attn_norm_gain@ == st.data(p + ".attention_norm.weight"@)
    &&& w.ffn_norm_gain@ == st.data(p + ".ffn_norm.weight"@)
}

/// Name of head `i`.
pub open spec fn head_name(i: int) -> Seq<char> {
    "lm_heads."@ + decimal(i) + ".weight"@
}

/// The failure, after an earlier one, to load the first `n` heads.
pub open spec fn heads_need(
    st: &Checkpoint,
    cfg: &MetaVoiceConfig,
    e: Option<Fault>,
    n: int,
) -> Option<Fault>
    decreases n,
{
    if n <= 0 {
        e
    } else {
        st.need_len(
            heads_need(st, cfg, e, n - 1),
            head_name(n - 1),
            cfg.vocab_size * cfg.hidden_size,
        )
    }
}

impl MetaVoiceWeights {
    /// Why a checkpoint cannot be loaded: the first tensor, in loading order,
    /// that is absent or has a wrong length.
    pub open spec fn load_failure(st: &Checkpoint, cfg: &MetaVoiceConfig) -> Option<Fault> {
        let h = cfg.hidden_size as int;
        let vocab = cfg.vocab_size as int;
        let e = st.need_len(None, "tok_embeddings.weight"@, vocab * h);
        let e = st.need_len(e, "speaker_cond_pos.weight"@, h * cfg.speaker_emb_dim);
        let e = layers_need(st, cfg, e, cfg.num_hidden_layers as int);
        let e = st.need_len(e, "norm.weight"@, h);
        if st.lookup("lm_heads.0.weight"@) is Some {
            heads_need(st, cfg, e, cfg.num_codebooks as int)
        } else {
            st.need_len(e, "output.weight"@, vocab * h)
        }
    }

    /// Whether these are the weights of the checkpoint. A checkpoint without a
    /// bank of heads shares its one output matrix among all codebooks.
    pub open spec fn loaded(&self, st: &Checkpoint, cfg: &MetaVoiceConfig) -> bool {
        let h = cfg.hidden_size as int;
        let vocab = cfg.vocab_size as int;
        &&& self.token_embedding@ == st.data("tok_embeddings.weight"@)
        &&& self.speaker_proj@ == loaded_matrix(
            st,
            "speaker_cond_pos.weight"@,
            h,
            cfg.speaker_emb_dim as int,
        )
        &&& self.layers@.len() == cfg.num_hidden_layers
        &&& forall|i: int|
            0 <= i < self.layers@.len() ==> layer_loaded(st, cfg, i, &#[trigger] self.layers@[i])
        &&& self.final_norm_gain@ == st.data("norm.weight"@)
        &&& self.lm_heads@.len() == cfg.num_codebooks
        &&& forall|i: int|
            0 <= i < self.lm_heads@.len() ==> (#[trigger] self.lm_heads@[i])@ == if st.lookup(
                "lm_heads.0.weight"@,
            ) is Some {
                loaded_matrix(st, head_name(i), vocab, h)
            } else {
                loaded_matrix(st, "output.weight"@, vocab, h)
            }
    }

    fn load_layer(ld: &mut Loader, cfg: &MetaVoiceConfig, li: usize) -> (r: LayerWeights)
        requires
            cfg.loadable(),
        ensures
            final(ld).st == old(ld).st,
            final(ld).fault() == layer_need(old(ld).st, cfg, old(ld).fault(), li as int),
            layer_loaded(old(ld).st, cfg, li as int, &r),
    {
        let h: usize = cfg.hidden_size;
        let i_dim: usize = cfg.intermediate_size;
        let kv: usize = cfg.num_key_value_heads * cfg.head_dim;
        let qkv_out: usize = h + 2 * kv;
        let p = numbered("layers.", li);
        let fused = ld.take_len(join(p.as_str(), ".attention.wqkv.weight").as_str(), qkv_out * h);
        let (q, k, v) = if fused.len() == qkv_out * h {
            split_fused_wqkv(&fused, h, kv, h)
        } else {
            (Vec::new(), Vec::new(), Vec::new())
        };
        let attn_o = ld.take_matrix(join(p.as_str(), ".attention.wo.weight").as_str(), h, h);
        let ffn_gate = ld.take_matrix(
            join(p.as_str(), ".feed_forward.swiglu.w1.weight").as_str(),
            i_dim,
            h,
        );
        let ffn_up = ld.take_matrix(
            join(p.as_str(), ".feed_forward.swiglu.w3.weight").as_str(),
            i_dim,
            h,
        );
        let ffn_down = ld.take_matrix(join(p.as_str(), ".feed_forward.w2.weight").as_str(), h, i_dim);
        let attn_norm_gain = ld.take_len(join(p.as_str(), ".attention_norm.weight").as_str(), h);
        let ffn_norm_gain = ld.take_len(join(p.as_str(), ".ffn_norm.weight").as_str(), h);
        LayerWeights {
            attn_q: WeightStorage::F32(Arc::new(q)),
            attn_q_bias: None,
            attn_k: WeightStorage::F32(Arc::new(k)),
            attn_k_bias: None,
            attn_v: WeightStorage::F32(Arc::new(v)),
            attn_v_bias: None,
            attn_o: WeightStorage::F32(attn_o),
            ffn_gate: WeightStorage::F32(ffn_gate),
            ffn_up: WeightStorage::F32(ffn_up),
            ffn_down: WeightStorage::F32(ffn_down),
            attn_norm_gain,
            ffn_norm_gain,
        }
    }

    fn load_heads(ld: &mut Loader, cfg: &MetaVoiceConfig) -> (r: Vec<WeightStorage>)
        requires
            cfg.loadable(),
        ensures
            final(ld).st == old(ld).st,
            final(ld).fault() == if old(ld).st.lookup("lm_heads.0.weight"@) is Some {
                heads_need(old(ld).st, cfg, old(ld).fault(), cfg.num_codebooks as int)
            } else {
                old(ld).st.need_len(
                    old(ld).fault(),
                    "output.weight"@,
                    cfg.vocab_size * cfg.hidden_size,
                )
            },
            r@.len() == cfg.num_codebooks,
            forall|i: int|
                0 <= i < r@.len() ==> (#[trigger] r@[i])@ == if old(ld).st.lookup(
                    "lm_heads.0.weight"@,
                ) is Some {
                    loaded_matrix(
                        old(ld).st,
                        head_name(i),
                        cfg.vocab_size as int,
                        cfg.hidden_size as int,
                    )
                } else {
                    loaded_matrix(
                        old(ld).st,
                        "output.weight"@,
                        cfg.vocab_size as int,
                        cfg.hidden_size as int,
                    )
                },
    {
        let ghost st = ld.st;
        let ghost e = ld.fault();
        let h: usize = cfg.hidden_size;
        let mut lm_heads: Vec<WeightStorage> = Vec::new();
        let mut ci: usize = 0;
        if ld.st.contains("lm_heads.0.weight") {
            while ci < cfg.num_codebooks
                invariant
                    cfg.loadable(),
                    h == cfg.hidden_size,
                    ci <= cfg.num_codebooks,
                    ld.st == st,
                    ld.fault() == heads_need(st, cfg, e, ci as int),
                    lm_heads@.len() == ci,
                    forall|i: int|
                        0 <= i < ci ==> (#[trigger] lm_heads@[i])@ == loaded_matrix(
                            st,
                            head_name(i),
                            cfg.vocab_size as int,
                            h as int,
                        ),
                decreases cfg.num_codebooks - ci,
            {
                let name = join(numbered("lm_heads.", ci).as_str(), ".weight");
                let head = ld.take_matrix(name.as_str(), cfg.vocab_size, h);
                lm_heads.push(WeightStorage::F32(head));
                ci = ci + 1;
            }
        } else {
            let shared = ld.take_matrix("output.weight", cfg.vocab_size, h);
            while ci < cfg.num_codebooks
                invariant
                    ci <= cfg.num_codebooks,
                    lm_heads@.len() == ci,
                    forall|i: int| 0 <= i < ci ==> (#[trigger] lm_heads@[i])@ == shared@,
                decreases cfg.num_codebooks - ci,
            {
                lm_heads.push(WeightStorage::F32(shared.clone()));
                ci = ci + 1;
            }
        }
        lm_heads
    }

    /// Loads the weights of a checkpoint. Matrices are stored as `(out, in)`.
    ///
    /// - `tok_embeddings.weight`
    /// - `speaker_cond_pos.weight`
    /// - `layers.{i}.attention.wqkv.weight`, split into query, key and value
    /// - `layers.{i}.attention.wo.weight`
    /// - `layers.{i}.feed_forward.swiglu.w1.weight`, the branch under `silu`
    /// - `layers.{i}.feed_forward.swiglu.w3.weight`
    /// - `layers.{i}.feed_forward.w2.weight`
    /// - `layers.{i}.attention_norm.weight`, `layers.{i}.ffn_norm.weight`
    /// - `norm.weight`
    /// - `lm_heads.{i}.weight`, or one `output.weight` for all codebooks
    pub fn load_from_mmapped(st: &Checkpoint, cfg: &MetaVoiceConfig) -> (r: Result<Self, LoadError>)
        requires
            cfg.loadable(),
        ensures
            match r {
                Ok(w) => MetaVoiceWeights::load_failure(st, cfg) is None && w.loaded(st, cfg),
                Err(e) => MetaVoiceWeights::load_failure(st, cfg) == Some(e@),
            },
    {
        let h: usize = cfg.hidden_size;
        let mut ld = Loader::new(st);
        let token_embedding = ld.take_len("tok_embeddings.weight", cfg.vocab_size * h);
        let speaker_proj = ld.take_matrix("speaker_cond_pos.weight", h, cfg.speaker_emb_dim);
        let ghost e = ld.fault();
        let mut layers: Vec<LayerWeights> = Vec::new();
        let mut li: usize = 0;
        while li < cfg.num_hidden_layers
            invariant
                cfg.loadable(),
                li <= cfg.num_hidden_layers,
                ld.st == st,
                ld.fault() == layers_need(st, cfg, e, li as int),
                layers@.len() == li,
                forall|i: int| 0 <= i < li ==> layer_loaded(st, cfg, i, &#[trigger] layers@[i]),
            decreases cfg.num_hidden_layers - li,
        {
            let layer = MetaVoiceWeights::load_layer(&mut ld, cfg, li);
            layers.push(layer);
            li = li + 1;
        }
        let final_norm_gain = ld.take_len("norm.weight", h);
        let lm_heads = MetaVoiceWeights::load_heads(&mut ld, cfg);
        match ld.error {
            Some(e) => Err(e),
            None => Ok(
                MetaVoiceWeights {
                    token_embedding,
                    speaker_proj: WeightStorage::F32(speaker_proj),
                    layers,
                    final_norm_gain,
                    lm_heads,
                },
            ),
        }
    }
}

impl MetaVoiceConfig {
    /// All sizes are positive, heads have an even width, and for `seq` tokens
    /// every tensor can be addressed.
    pub open spec fn addressable(&self, seq: int) -> bool {
        let h = self.hidden_size as int;
        &&& self.valid()
        &&& self.head_dim >= 1
        &&& self.head_dim % 2 == 0
        &&& h >= 1
        &&& self.intermediate_size >= 1
        &&& self.vocab_size >= 1
        &&& self.speaker_emb_dim >= 1
        &&& seq >= 1
        &&& seq * seq <= usize::MAX
        &&& seq * h <= usize::MAX
        &&& h * h <= usize::MAX
        &&& h * self.intermediate_size <= usize::MAX
        &&& h * self.vocab_size <= usize::MAX
        &&& self.speaker_emb_dim * h <= usize::MAX
    }
}

impl MetaVoiceWeights {
    /// Every weight has the size that the configuration declares, and there is
    /// one head for each codebook.
    pub open spec fn sized(&self, cfg: &MetaVoiceConfig) -> bool {
        let h = cfg.hidden_size as int;
        &&& self.token_embedding@.len() == cfg.vocab_size * h
        &&& self.speaker_proj@.len() == cfg.speaker_emb_dim * h
        &&& forall|i: int|
            0 <= i < self.layers@.len() ==> (#[trigger] self.layers@[i]).sized(
                h,
                cfg.kv(),
                cfg.intermediate_size as int,
            )
        &&& self.final_norm_gain@.len() == h
        &&& self.lm_heads@.len() == cfg.num_codebooks
        &&& cfg.num_codebooks >= 1
        &&& forall|i: int|
            0 <= i < self.lm_heads@.len() ==> (#[trigger] self.lm_heads@[i])@.len() == h * cfg.vocab_size
    }
}

/// A layer keeps the extents of its operand.
pub proof fn layer_has(
    cfg: &MetaVoiceConfig,
    w: &LayerWeights,
    x: Tensor,
    cos: Tensor,
    sin: Tensor,
    mask: Tensor,
    s: int,
)
    requires
        cfg.addressable(s),
        w.sized(cfg.hidden_size as int, cfg.kv(), cfg.intermediate_size as int),
        has(x, seq![1, s, cfg.hidden_size as int]),
        has(cos, seq![s, cfg.head_dim as int]),
        has(sin, seq![s, cfg.head_dim as int]),
        has(mask, seq![1, 1, s, s]),
    ensures
        has(layer_value(cfg, w, x, cos, sin, mask), seq![1, s, cfg.hidden_size as int]),
{
    broadcast use extents;

    let h = cfg.hidden_size as int;
    let heads = cfg.num_attention_heads as int;
    let kvh = cfg.num_key_value_heads as int;
    let d = cfg.head_dim as int;
    let kv = cfg.kv();
    let rep = heads / kvh;
    heads_are_shared(heads, kvh, d);
    assert(h * kv <= h * h) by (nonlinear_arith)
        requires
            1 <= kv <= h,
    ;
    let n = x.rms_norm(w.attn_norm_gain@, h, cfg.rms_norm_eps);
    let q = n.linear(w.attn_q@, h, h).split_heads(heads, d).rope_with_tables(cos, sin);
    let k = n.linear(w.attn_k@, h, kv).split_heads(kvh, d).rope_with_tables(cos, sin);
    let v = n.linear(w.attn_v@, h, kv).split_heads(kvh, d);
    let kr = k.repeat_interleave(1, rep);
    let vr = v.repeat_interleave(1, rep);
    assert(kr.dims =~= seq![1, heads, s, d]);
    assert(vr.dims =~= seq![1, heads, s, d]);
    assert(lies_under(mask.dims, seq![1, heads, s, s]));
    masked_attention_has(q, kr, vr, inv_sqrt64(cfg.head_dim), mask, 1, heads, s, d);
    let ctx = masked_attention(q, kr, vr, inv_sqrt64(cfg.head_dim), mask);
    let h1 = x.add(ctx.merge_heads().linear(w.attn_o@, h, h));
    assert(has(h1, seq![1, s, h]));
    swiglu_has(
        h1.rms_norm(w.ffn_norm_gain@, h, cfg.rms_norm_eps),
        w.ffn_gate@,
        w.ffn_up@,
        w.ffn_down@,
        h,
        cfg.intermediate_size as int,
        1,
        s,
    );
}

pub proof fn layers_have(
    cfg: &MetaVoiceConfig,
    layers: Seq<LayerWeights>,
    n: int,
    x: Tensor,
    cos: Tensor,
    sin: Tensor,
    mask: Tensor,
    s: int,
)
    requires
        cfg.addressable(s),
        0 <= n <= layers.len(),
        forall|i: int|
            0 <= i < layers.len() ==> (#[trigger] layers[i]).sized(
                cfg.hidden_size as int,
                cfg.kv(),
                cfg.intermediate_size as int,
            ),
        has(x, seq![1, s, cfg.hidden_size as int]),
        has(cos, seq![s, cfg.head_dim as int]),
        has(sin, seq![s, cfg.head_dim as int]),
        has(mask, seq![1, 1, s, s]),
    ensures
        has(layers_value(cfg, layers, n, x, cos, sin, mask), seq![1, s, cfg.hidden_size as int]),
    decreases n,
{
    if n > 0 {
        layers_have(cfg, layers, n - 1, x, cos, sin, mask, s);
        layer_has(
            cfg,
            &layers[n - 1],
            layers_value(cfg, layers, n - 1, x, cos, sin, mask),
            cos,
            sin,
            mask,
            s,
        );
    }
}

/// On weights of the declared sizes a run over embeddings
/// `(1, seq, hidden_size)` with a speaker vector `(1, 1, speaker_emb_dim)`
/// succeeds, and the logits are `(1, num_codebooks, vocab_size)`.
pub proof fn embeds_run_succeeds(model: &MetaVoiceModel, embeds: Tensor, spk: Tensor, start: int, seq: int)
    requires
        model.config.addressable(seq),
        model.weights.sized(&model.config),
        has(embeds, seq![1, seq, model.config.hidden_size as int]),
        has(spk, seq![1, 1, model.config.speaker_emb_dim as int]),
    ensures
        has(
            model.embeds_logits(embeds, spk, start, 1, seq),
            seq![1, model.config.num_codebooks as int, model.config.vocab_size as int],
        ),
{
    broadcast use extents;

    let cfg = &model.config;
    let w = &model.weights;
    let h = cfg.hidden_size as int;
    let e = cfg.speaker_emb_dim as int;
    products(1, 1, e, 1, 1, 1);
    addressable_fits(spk.dims);
    reshape_has(spk, seq![1, 1, e]);
    let own = speaker_value(cfg, spk).linear(w.speaker_proj@, e, h);
    broadcast_to_has(own, seq![1, seq, h]);
    mask_has(causal_data(seq), seq, 1, cfg.num_attention_heads as int);
    layers_have(
        cfg,
        w.layers@,
        w.layers@.len() as int,
        embeds.add(own.broadcast_to(seq![1, seq, h])),
        Tensor::rope_cos(cfg.rope_theta, start, seq, cfg.head_dim as int),
        Tensor::rope_sin(cfg.rope_theta, start, seq, cfg.head_dim as int),
        causal_tensor(seq),
        seq,
    );
    let last = model.hidden(embeds, spk, start, 1, seq).narrow(1, seq - 1, 1);
    assert(last.dims =~= seq![1, 1, h]);
    let heads = w.lm_heads@.map_values(|head: WeightStorage| head_value(cfg, head@, last));
    assert forall|i: int| 0 <= i < heads.len() implies has(
        #[trigger] heads[i],
        seq![1, cfg.vocab_size as int],
    ) by {
        let y = last.linear(w.lm_heads@[i]@, h, cfg.vocab_size as int);
        assert(y.squeeze(1).dims =~= seq![1, cfg.vocab_size as int]);
    }
    stacked_has(heads, cfg.vocab_size as int);
}

/// On weights of the declared sizes a run over tokens succeeds, and the logits
/// are `(1, num_codebooks, vocab_size)`.
pub proof fn forward_succeeds(model: &MetaVoiceModel, tokens: Seq<u32>, spk: Tensor, start: int)
    requires
        model.config.addressable(tokens.len() as int),
        model.weights.sized(&model.config),
        has(spk, seq![1, 1, model.config.speaker_emb_dim as int]),
    ensures
        has(
            model.logits(tokens, spk, start),
            seq![1, model.config.num_codebooks as int, model.config.vocab_size as int],
        ),
{
    let cfg = &model.config;
    let h = cfg.hidden_size as int;
    assert(cfg.vocab_size * h == h * cfg.vocab_size) by (nonlinear_arith);
    embed_has(model.weights.token_embedding@, cfg.vocab_size as int, h, tokens);
    embeds_run_succeeds(
        model,
        Tensor::embed_tokens(model.weights.token_embedding@, cfg.vocab_size as int, h, tokens),
        spk,
        start,
        tokens.len() as int,
    );
}

/// A run over the embeddings of tokens has the outcome of the run over the
/// tokens.
pub proof fn embeds_run_matches(
    model: &MetaVoiceModel,
    tokens: Seq<u32>,
    spk: Tensor,
    start: int,
    embeds: LazyTensor,
    by_tokens: Result<LazyTensor, Error>,
    by_embeds: Result<LazyTensor, Error>,
)
    requires
        outcome(
            Ok(embeds),
            Tensor::embed_tokens(
                model.weights.token_embedding@,
                model.config.vocab_size as int,
                model.config.hidden_size as int,
                tokens,
            ),
        ),
        outcome(by_tokens, model.logits(tokens, spk, start)),
        outcome(
            by_embeds,
            model.embeds_logits(embeds@, spk, start, embeds@.dim(0), embeds@.dim(1)),
        ),
    ensures
        agree(by_tokens, by_embeds),
{
    embedding_extents(
        model.weights.token_embedding@,
        model.config.vocab_size as int,
        model.config.hidden_size as int,
        tokens,
    );
}

/// A layer of a checkpoint that loads could be loaded on its own.
proof fn layers_are_there(st: &Checkpoint, cfg: &MetaVoiceConfig, e: Option<Fault>, n: int, i: int)
    requires
        layers_need(st, cfg, e, n) is None,
        0 <= i < n,
    ensures
        layer_need(st, cfg, None, i) is None,
    decreases n,
{
    if i < n - 1 {
        layers_are_there(st, cfg, e, n - 1, i);
    }
}

proof fn earlier_is_there(st: &Checkpoint, cfg: &MetaVoiceConfig, e: Option<Fault>, n: int)
    requires
        layers_need(st, cfg, e, n) is None,
    ensures
        e is None,
    decreases n,
{
    if n > 0 {
        earlier_is_there(st, cfg, e, n - 1);
    }
}

proof fn heads_are_there(st: &Checkpoint, cfg: &MetaVoiceConfig, e: Option<Fault>, n: int, i: int)
    requires
        heads_need(st, cfg, e, n) is None,
        0 <= i < n,
    ensures
        st.data(head_name(i)).len() == cfg.vocab_size * cfg.hidden_size,
    decreases n,
{
    if i < n - 1 {
        heads_are_there(st, cfg, e, n - 1, i);
    }
}

proof fn before_heads_is_there(st: &Checkpoint, cfg: &MetaVoiceConfig, e: Option<Fault>, n: int)
    requires
        heads_need(st, cfg, e, n) is None,
    ensures
        e is None,
    decreases n,
{
    if n > 0 {
        before_heads_is_there(st, cfg, e, n - 1);
    }
}

/// Weights that were loaded have the sizes that the configuration declares, so
/// that a run over them succeeds.
pub proof fn loaded_weights_are_sized(w: &MetaVoiceWeights, st: &Checkpoint, cfg: &MetaVoiceConfig)
    requires
        MetaVoiceWeights::load_failure(st, cfg) is None,
        w.loaded(st, cfg),
        cfg.num_codebooks >= 1,
    ensures
        w.sized(cfg),
{
    let h = cfg.hidden_size as int;
    let kv = cfg.kv();
    let inner = cfg.intermediate_size as int;
    let vocab = cfg.vocab_size as int;
    let e0 = st.need_len(
        st.need_len(None, "tok_embeddings.weight"@, vocab * h),
        "speaker_cond_pos.weight"@,
        h * cfg.speaker_emb_dim,
    );
    let n = cfg.num_hidden_layers as int;
    let e1 = layers_need(st, cfg, e0, n);
    let e2 = st.need_len(e1, "norm.weight"@, h);
    if st.lookup("lm_heads.0.weight"@) is Some {
        before_heads_is_there(st, cfg, e2, cfg.num_codebooks as int);
    }
    earlier_is_there(st, cfg, e0, n);
    assert(h * cfg.speaker_emb_dim == cfg.speaker_emb_dim * h && vocab * h == h * vocab && inner * h == h
        * inner && kv * h == h * kv) by (nonlinear_arith);
    assert(h * h >= 0 && h * inner >= 0 && h * kv >= 0 && h * vocab >= 0 && h * cfg.speaker_emb_dim >= 0)
        by (nonlinear_arith)
        requires
            h >= 0,
            inner >= 0,
            kv >= 0,
            vocab >= 0,
            cfg.speaker_emb_dim >= 0,
    ;
    assert forall|i: int| 0 <= i < w.layers@.len() implies (#[trigger] w.layers@[i]).sized(h, kv, inner) by {
        layers_are_there(st, cfg, e0, n, i);
        assert(layer_loaded(st, cfg, i, &w.layers@[i]));
    }
    assert forall|i: int| 0 <= i < w.lm_heads@.len() implies (#[trigger] w.lm_heads@[i])@.len() == h
        * cfg.vocab_size by {
        if st.lookup("lm_heads.0.weight"@) is Some {
            heads_are_there(st, cfg, e2, cfg.num_codebooks as int, i);
        }
    }
}

} // verus!
