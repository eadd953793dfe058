//! What MetaVoice computes, number by number.

use crate::common::{causal_tensor, heads_are_shared, masked_attention, stacked, stacked_has, swiglu, LayerWeights};
use crate::extents::{addressable_fits, broadcast_to_has, embed_has, extents, has, products, reshape_has};
use crate::formulas::Rows;
use crate::lazy::{Tensor, WeightStorage};
use crate::lazy_metavoice::{
    head_value, layer_value, layers_have, layers_value, speaker_value, MetaVoiceConfig, MetaVoiceModel,
};
use crate::marian_meaning::causal_hides;
use crate::meaning::{at2, at3, row3, Functions, Row};
use crate::mistral_meaning::{embedding_holds, token_rows};
use crate::readings::{
    mapped, mapped_alike, number_of_scale, pick, place3, read_broadcast3, read_reshape, read_squeeze, read_unsqueeze,
    readings,
};
use crate::rows_read::{
    gated_rows, heads_of, holds, linear_holds, linear_rows, masked_holds, mixed_rows, repeat_holds, rms_norm_holds,
    rms_normed_rows, rope_holds, roped, split_holds, sum_holds, sum_rows, swiglu_holds,
};
use crate::scalar::inv_sqrt64;
use vstd::prelude::*;

verus! {

/// The rows after attention: those before it, plus what each position attends to
/// among itself and those before it.
pub open spec fn after_attention(
    f: Functions,
    cfg: &MetaVoiceConfig,
    w: &LayerWeights,
    x: Rows,
    start: int,
    s: int,
) -> Rows {
    let h = cfg.hidden_size as int;
    let d = cfg.head_dim as int;
    let kv = cfg.num_key_value_heads * cfg.head_dim;
    let n = rms_normed_rows(f, x, w.attn_norm_gain@, h, cfg.rms_norm_eps);
    let seen = mixed_rows(
        f,
        roped(f, cfg.rope_theta, start, d, heads_of(linear_rows(f, n, w.attn_q@, h, h), d)),
        roped(f, cfg.rope_theta, start, d, heads_of(linear_rows(f, n, w.attn_k@, h, kv), d)),
        heads_of(linear_rows(f, n, w.attn_v@, h, kv), d),
        d,
        cfg.num_attention_heads as int / cfg.num_key_value_heads as int,
        s,
        1real / (f.sqrt)(d as real),
        |i: int, o: int| o > i,
    );
    sum_rows(x, linear_rows(f, seen, w.attn_o@, h, h))
}

/// The rows after a layer: those after attention, plus their feed-forward part.
pub open spec fn after_layer(
    f: Functions,
    cfg: &MetaVoiceConfig,
    w: &LayerWeights,
    x: Rows,
    start: int,
    s: int,
) -> Rows {
    let h = cfg.hidden_size as int;
    let y = after_attention(f, cfg, w, x, start, s);
    sum_rows(
        y,
        gated_rows(
            f,
            rms_normed_rows(f, y, w.ffn_norm_gain@, h, cfg.rms_norm_eps),
            w.ffn_gate@,
            w.ffn_up@,
            w.ffn_down@,
            h,
            cfg.intermediate_size as int,
        ),
    )
}

/// The rows after the first `n` layers.
pub open spec fn after_layers(
    f: Functions,
    cfg: &MetaVoiceConfig,
    layers: Seq<LayerWeights>,
    n: int,
    x: Rows,
    start: int,
    s: int,
) -> Rows
    decreases n,
{
    if n <= 0 {
        x
    } else {
        after_layer(f, cfg, &layers[n - 1], after_layers(f, cfg, layers, n - 1, x, start, s), start, s)
    }
}

/// A layer, number by number.
#[verifier::spinoff_prover]
pub proof fn layer_reads(
    f: Functions,
    cfg: &MetaVoiceConfig,
    w: &LayerWeights,
    t: Tensor,
    x: Rows,
    start: int,
    s: int,
)
    requires
        cfg.addressable(s),
        w.sized(cfg.hidden_size as int, cfg.kv(), cfg.intermediate_size as int),
        has(t, seq![1, s, cfg.hidden_size as int]),
        holds(f, t, x, s, cfg.hidden_size as int),
    ensures
        holds(
            f,
            layer_value(
                cfg,
                w,
                t,
                Tensor::rope_cos(cfg.rope_theta, start, s, cfg.head_dim as int),
                Tensor::rope_sin(cfg.rope_theta, start, s, cfg.head_dim as int),
                causal_tensor(s),
            ),
            after_layer(f, cfg, w, x, start, s),
            s,
            cfg.hidden_size as int,
        ),
{
    let h = cfg.hidden_size as int;
    let heads = cfg.num_attention_heads as int;
    let kvh = cfg.num_key_value_heads as int;
    let d = cfg.head_dim as int;
    let kv = cfg.kv();
    let rep = heads / kvh;
    let inner = cfg.intermediate_size as int;
    heads_are_shared(heads, kvh, d);
    assert(h * kv <= h * h) by (nonlinear_arith)
        requires
            1 <= kv <= h,
    ;
    assert(inner * h == h * inner) by (nonlinear_arith);
    let theta = cfg.rope_theta;
    let (cos, sin) = (Tensor::rope_cos(theta, start, s, d), Tensor::rope_sin(theta, start, s, d));
    let mask = causal_tensor(s);
    let hidden = |i: int, o: int| o > i;
    causal_hides(f, s);
    let n = t.rms_norm(w.attn_norm_gain@, h, cfg.rms_norm_eps);
    let ns = rms_normed_rows(f, x, w.attn_norm_gain@, h, cfg.rms_norm_eps);
    rms_norm_holds(f, t, x, w.attn_norm_gain@, h, cfg.rms_norm_eps, s);
    linear_holds(f, n, ns, w.attn_q@, h, h, s);
    linear_holds(f, n, ns, w.attn_k@, h, kv, s);
    linear_holds(f, n, ns, w.attn_v@, h, kv, s);
    let (ql, kl, vl) = (n.linear(w.attn_q@, h, h), n.linear(w.attn_k@, h, kv), n.linear(w.attn_v@, h, kv));
    let (qr, kr, vr) = (
        linear_rows(f, ns, w.attn_q@, h, h),
        linear_rows(f, ns, w.attn_k@, h, kv),
        linear_rows(f, ns, w.attn_v@, h, kv),
    );
    split_holds(f, ql, qr, heads, d, s);
    split_holds(f, kl, kr, kvh, d, s);
    split_holds(f, vl, vr, kvh, d, s);
    rope_holds(f, ql.split_heads(heads, d), heads_of(qr, d), theta, start, heads, s, d);
    rope_holds(f, kl.split_heads(kvh, d), heads_of(kr, d), theta, start, kvh, s, d);
    let q = ql.split_heads(heads, d).rope_with_tables(cos, sin);
    let k = kl.split_heads(kvh, d).rope_with_tables(cos, sin);
    let v = vl.split_heads(kvh, d);
    let (qs, ks, vs) = (
        roped(f, theta, start, d, heads_of(qr, d)),
        roped(f, theta, start, d, heads_of(kr, d)),
        heads_of(vr, d),
    );
    repeat_holds(f, k, ks, kvh, rep, d, s);
    repeat_holds(f, v, vs, kvh, rep, d, s);
    let (kk, vv) = (k.repeat_interleave(1, rep), v.repeat_interleave(1, rep));
    let scale = inv_sqrt64(cfg.head_dim);
    number_of_scale(f, cfg.head_dim);
    masked_holds(f, q, kk, vv, mask, qs, ks, vs, scale, hidden, heads, rep, s, d);
    let merged = masked_attention(q, kk, vv, scale, mask).merge_heads();
    let seen = mixed_rows(f, qs, ks, vs, d, rep, s, 1real / (f.sqrt)(d as real), hidden);
    linear_holds(f, merged, seen, w.attn_o@, h, h, s);
    let out = merged.linear(w.attn_o@, h, h);
    sum_holds(f, t, out, x, linear_rows(f, seen, w.attn_o@, h, h), s, h);
    let h1 = t.add(out);
    let ys = after_attention(f, cfg, w, x, start, s);
    assert(holds(f, h1, ys, s, h));
    rms_norm_holds(f, h1, ys, w.ffn_norm_gain@, h, cfg.rms_norm_eps, s);
    let m = h1.rms_norm(w.ffn_norm_gain@, h, cfg.rms_norm_eps);
    let ms = rms_normed_rows(f, ys, w.ffn_norm_gain@, h, cfg.rms_norm_eps);
    swiglu_holds(f, m, ms, w.ffn_gate@, w.ffn_up@, w.ffn_down@, h, inner, s);
    sum_holds(
        f,
        h1,
        swiglu(m, w.ffn_gate@, w.ffn_up@, w.ffn_down@, h, inner),
        ys,
        gated_rows(f, ms, w.ffn_gate@, w.ffn_up@, w.ffn_down@, h, inner),
        s,
        h,
    );
}

/// The first layers, number by number.
pub proof fn layers_read(
    f: Functions,
    cfg: &MetaVoiceConfig,
    layers: Seq<LayerWeights>,
    n: int,
    t: Tensor,
    x: Rows,
    start: int,
    s: int,
)
    requires
        cfg.addressable(s),
        0 <= n <= layers.len(),
        forall|i: int|
            0 <= i < layers.len() ==> (#[trigger] layers[i]).sized(
                cfg.hidden_size as int,
                cfg.kv(),
                cfg.intermediate_size as int,
            ),
        has(t, seq![1, s, cfg.hidden_size as int]),
        holds(f, t, x, s, cfg.hidden_size as int),
    ensures
        ({
            let y = layers_value(
                cfg,
                layers,
                n,
                t,
                Tensor::rope_cos(cfg.rope_theta, start, s, cfg.head_dim as int),
                Tensor::rope_sin(cfg.rope_theta, start, s, cfg.head_dim as int),
                causal_tensor(s),
            );
            &&& has(y, seq![1, s, cfg.hidden_size as int])
            &&& holds(f, y, after_layers(f, cfg, layers, n, x, start, s), s, cfg.hidden_size as int)
        }),
    decreases n,
{
    broadcast use extents;

    let cos = Tensor::rope_cos(cfg.rope_theta, start, s, cfg.head_dim as int);
    let sin = Tensor::rope_sin(cfg.rope_theta, start, s, cfg.head_dim as int);
    causal_hides(f, s);
    layers_have(cfg, layers, n, t, cos, sin, causal_tensor(s), s);
    if n > 0 {
        layers_read(f, cfg, layers, n - 1, t, x, start, s);
        layer_reads(
            f,
            cfg,
            &layers[n - 1],
            layers_value(cfg, layers, n - 1, t, cos, sin, causal_tensor(s)),
            after_layers(f, cfg, layers, n - 1, x, start, s),
            start,
            s,
        );
    }
}

/// The rows that the layers read: the embedding of each token plus the projected
/// speaker vector.
pub open spec fn input_rows(f: Functions, model: &MetaVoiceModel, tokens: Seq<u32>, spk: Tensor) -> Rows {
    let h = model.config.hidden_size as int;
    let e = token_rows(f, model.weights.token_embedding@, h, tokens);
    |i: int| |k: int|
        e(i)(k) + mapped(
            f,
            row3(f, spk, 0, 0),
            model.weights.speaker_proj@,
            model.config.speaker_emb_dim as int,
            h,
            k,
        )
}

/// The state of the last position.
pub open spec fn last_state(f: Functions, model: &MetaVoiceModel, tokens: Seq<u32>, spk: Tensor, start: int) -> Row {
    let w = &model.weights;
    let s = tokens.len() as int;
    rms_normed_rows(
        f,
        after_layers(
            f,
            &model.config,
            w.layers@,
            w.layers@.len() as int,
            input_rows(f, model, tokens, spk),
            start,
            s,
        ),
        w.final_norm_gain@,
        model.config.hidden_size as int,
        model.config.rms_norm_eps,
    )(s - 1)
}

/// Stacked vectors, number by number.
pub proof fn stacked_reads(f: Functions, ts: Seq<Tensor>, n: int, a: int, j: int)
    requires
        1 <= ts.len() <= usize::MAX,
        forall|i: int| 0 <= i < ts.len() ==> has(#[trigger] ts[i], seq![1, n]),
        0 <= a < ts.len(),
        0 <= j < n,
    ensures
        at3(f, stacked(ts, 1), 0, a, j) == at2(f, ts[a], 0, j),
    decreases ts.len(),
{
    broadcast use {extents, readings};

    let k = ts.len() as int;
    let last = ts[k - 1].unsqueeze(1);
    assert(last.dims =~= seq![1, 1, n]);
    read_unsqueeze(f, ts[k - 1], 0, 0, j);
    if k > 1 {
        let front = ts.drop_last();
        assert forall|i: int| 0 <= i < front.len() implies has(#[trigger] front[i], seq![1, n]) by {
            assert(front[i] == ts[i]);
        }
        stacked_has(front, n);
        let x = stacked(front, 1);
        assert(x.dims.update(1, 0) =~= last.dims.update(1, 0));
        assert(x.concat(last, 1).dims =~= seq![1, k, n]);
        if a < k - 1 {
            stacked_reads(f, front, n, a, j);
            assert(front[a] == ts[a]);
            assert(at3(f, x.concat(last, 1), 0, a, j) == at3(f, x, 0, a, j));
        } else {
            assert(at3(f, x.concat(last, 1), 0, a, j) == at3(f, last, 0, 0, j));
        }
    }
}

/// The logits, number by number: codebook `a` maps the state of the last position
/// by its own head.
#[verifier::spinoff_prover]
pub proof fn logits_read(
    f: Functions,
    model: &MetaVoiceModel,
    tokens: Seq<u32>,
    spk: Tensor,
    start: int,
    a: int,
    j: int,
)
    requires
        model.config.addressable(tokens.len() as int),
        model.weights.sized(&model.config),
        has(spk, seq![1, 1, model.config.speaker_emb_dim as int]),
        0 <= a < model.config.num_codebooks,
        0 <= j < model.config.vocab_size,
    ensures
        at3(f, model.logits(tokens, spk, start), 0, a, j) == mapped(
            f,
            last_state(f, model, tokens, spk, start),
            model.weights.lm_heads@[a]@,
            model.config.hidden_size as int,
            model.config.vocab_size as int,
            j,
        ),
{
    broadcast use {extents, readings};

    let cfg = &model.config;
    let w = &model.weights;
    let h = cfg.hidden_size as int;
    let v = cfg.vocab_size as int;
    let e = cfg.speaker_emb_dim as int;
    let s = tokens.len() as int;
    assert(v * h == h * v) by (nonlinear_arith);
    embed_has(w.token_embedding@, v, h, tokens);
    let t = Tensor::embed_tokens(w.token_embedding@, v, h, tokens);
    embedding_holds(f, w.token_embedding@, v, h, tokens);
    products(1, 1, e, 1, 1, 1);
    addressable_fits(spk.dims);
    reshape_has(spk, seq![1, 1, e]);
    let sv = speaker_value(cfg, spk);
    let own = sv.linear(w.speaker_proj@, e, h);
    let to = seq![1, s, h];
    broadcast_to_has(own, to);
    let wide = own.broadcast_to(to);
    let voice = |i: int| |k: int| mapped(f, row3(f, spk, 0, 0), w.speaker_proj@, e, h, k);
    assert forall|i: int, k: int| 0 <= i < s && 0 <= k < h implies #[trigger] at3(f, wide, 0, i, k) == voice(i)(k) by {
        read_broadcast3(f, own, to, 0, i, k);
        assert(pick(h, k) == k);
        assert forall|m: int| 0 <= m < e implies #[trigger] row3(f, sv, 0, 0)(m) == row3(f, spk, 0, 0)(m) by {
            place3(0, 0, m, 1, 1, e);
            read_reshape(f, spk, seq![1, 1, e], seq![0, 0, m], seq![0, 0, m]);
        }
        mapped_alike(f, row3(f, sv, 0, 0), row3(f, spk, 0, 0), w.speaker_proj@, e, h, k);
        assert(at3(f, own, 0, 0, k) == mapped(f, row3(f, sv, 0, 0), w.speaker_proj@, e, h, k));
    }
    let es = token_rows(f, w.token_embedding@, h, tokens);
    sum_holds(f, t, wide, es, voice, s, h);
    let x = t.add(wide);
    let xs = input_rows(f, model, tokens, spk);
    assert forall|i: int, k: int| 0 <= i < s && 0 <= k < h implies #[trigger] at3(f, x, 0, i, k) == xs(i)(k) by {
        assert(at3(f, x, 0, i, k) == sum_rows(es, voice)(i)(k));
    }
    let last = w.layers@.len() as int;
    layers_read(f, cfg, w.layers@, last, x, xs, start, s);
    let cos = Tensor::rope_cos(cfg.rope_theta, start, s, cfg.head_dim as int);
    let sin = Tensor::rope_sin(cfg.rope_theta, start, s, cfg.head_dim as int);
    let y = layers_value(cfg, w.layers@, last, x, cos, sin, causal_tensor(s));
    let ys = after_layers(f, cfg, w.layers@, last, xs, start, s);
    rms_norm_holds(f, y, ys, w.final_norm_gain@, h, cfg.rms_norm_eps, s);
    let hidden = model.hidden(t, spk, start, 1, s);
    let states = rms_normed_rows(f, ys, w.final_norm_gain@, h, cfg.rms_norm_eps);
    assert(holds(f, hidden, states, s, h));
    let end = hidden.narrow(1, s - 1, 1);
    assert(end.dims =~= seq![1, 1, h]);
    let heads = w.lm_heads@.map_values(|head: WeightStorage| head_value(cfg, head@, end));
    assert forall|i: int| 0 <= i < heads.len() implies has(#[trigger] heads[i], seq![1, v]) by {
        let z = end.linear(w.lm_heads@[i]@, h, v);
        assert(z.squeeze(1).dims =~= seq![1, v]);
    }
    stacked_reads(f, heads, v, a, j);
    let z = end.linear(w.lm_heads@[a]@, h, v);
    assert(z.squeeze(1).dims =~= seq![1, v]);
    read_squeeze(f, z, 0, j);
    let state = last_state(f, model, tokens, spk, start);
    assert forall|k: int| 0 <= k < h implies #[trigger] row3(f, end, 0, 0)(k) == state(k) by {
        assert(at3(f, end, 0, 0, k) == at3(f, hidden, 0, 0 + (s - 1), k));
        assert(at3(f, hidden, 0, s - 1, k) == states(s - 1)(k));
    }
    mapped_alike(f, row3(f, end, 0, 0), state, w.lm_heads@[a]@, h, v, j);
    assert(heads[a] == head_value(cfg, w.lm_heads@[a]@, end));
}

} // verus!
