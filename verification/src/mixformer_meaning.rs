//! What MixFormer computes, number by number.

use crate::extents::{embed_has, extents, has};
use crate::formulas::{Heads, Rows};
use crate::lazy::Tensor;
use crate::lazy_mixformer::{
    layer_value, layers_have, layers_over, partly_rotated, partly_rotated_has, MixFormerActivation,
    MixFormerConfig, MixFormerLayerWeights, MixFormerModel,
};
use crate::meaning::{angle, at2, at3, at4, number, row4, Functions};
use crate::readings::{number_of_scale, read_embedding, readings, row2, turned};
use crate::rows_read::{
    affine_holds, affine_rows, causal_mask_hides, cut_holds, cut_rows, each, heads_hold, heads_of, holds,
    layer_norm_holds, layer_normed_rows, masked_holds, mixed_rows, split_holds, sum_holds, sum_rows,
};
use crate::scalar::inv_sqrt64;
use vstd::prelude::*;

verus! {

/// Heads whose first features are turned by the angles of their positions.
pub open spec fn turned_in_part(f: Functions, cfg: &MixFormerConfig, x: Heads, start: int) -> Heads {
    let rot = cfg.rotated();
    |g: int, i: int| |k: int|
        if k < rot {
            turned(
                x(g, i),
                |m: int| (f.cos)(angle(f, cfg.rope_theta, start + i, rot, m)),
                |m: int| (f.sin)(angle(f, cfg.rope_theta, start + i, rot, m)),
                rot / 2,
                k,
            )
        } else {
            x(g, i)(k)
        }
}

/// The activation of the feed-forward part.
pub open spec fn activation(f: Functions, cfg: &MixFormerConfig) -> spec_fn(real) -> real {
    match cfg.hidden_activation {
        MixFormerActivation::Gelu => f.gelu_erf,
        MixFormerActivation::GeluPytorchTanh => f.gelu,
    }
}

/// The rows after a layer: those before it, plus what each position attends to
/// among itself and those before it, plus the feed-forward part; both read the same
/// normed rows.
pub open spec fn after_layer(
    f: Functions,
    cfg: &MixFormerConfig,
    w: &MixFormerLayerWeights,
    x: Rows,
    start: int,
    s: int,
) -> Rows {
    let h = cfg.hidden_size as int;
    let d = cfg.width();
    let n = layer_normed_rows(f, x, w.ln_gain@, w.ln_bias@, h, cfg.layer_norm_eps);
    let qkv = affine_rows(f, n, w.wqkv@, w.wqkv_bias@, h, 3 * h);
    let q = turned_in_part(f, cfg, heads_of(cut_rows(qkv, 0), d), start);
    let k = turned_in_part(f, cfg, heads_of(cut_rows(qkv, h), d), start);
    let v = heads_of(cut_rows(qkv, 2 * h), d);
    let seen = mixed_rows(f, q, k, v, d, 1, s, 1real / (f.sqrt)(d as real), |i: int, o: int| o > i);
    let up = each(activation(f, cfg), affine_rows(f, n, w.fc1@, w.fc1_bias@, h, cfg.inner()));
    sum_rows(
        sum_rows(x, affine_rows(f, seen, w.out_proj@, w.out_proj_bias@, h, h)),
        affine_rows(f, up, w.fc2@, w.fc2_bias@, cfg.inner(), h),
    )
}

/// The rows after the first `n` layers.
pub open spec fn after_layers(
    f: Functions,
    cfg: &MixFormerConfig,
    layers: Seq<MixFormerLayerWeights>,
    n: int,
    x: Rows,
    start: int,
    s: int,
) -> Rows
    decreases n,
{
    if n <= 0 {
        x
    } else {
        after_layer(f, cfg, &layers[n - 1], after_layers(f, cfg, layers, n - 1, x, start, s), start, s)
    }
}

/// The final states of `s` rows.
pub open spec fn final_rows(f: Functions, model: &MixFormerModel, x: Rows, start: int, s: int) -> Rows {
    layer_normed_rows(
        f,
        after_layers(
            f,
            &model.config,
            model.weights.layers@,
            model.weights.layers@.len() as int,
            x,
            start,
            s,
        ),
        model.weights.final_ln_gain@,
        model.weights.final_ln_bias@,
        model.config.hidden_size as int,
        model.config.layer_norm_eps,
    )
}

/// The logits of `s` rows.
pub open spec fn logit_rows(f: Functions, model: &MixFormerModel, x: Rows, start: int, s: int) -> Rows {
    affine_rows(
        f,
        final_rows(f, model, x, start, s),
        model.head(),
        model.weights.lm_head_bias@,
        model.config.hidden_size as int,
        model.config.vocab_size as int,
    )
}

/// The rows of the table of embeddings that tokens select.
pub open spec fn token_rows(f: Functions, model: &MixFormerModel, tokens: Seq<u32>) -> Rows {
    |i: int| |k: int| number(f, model.weights.token_embedding@[tokens[i] * model.config.hidden_size + k])
}

/// Turned heads, number by number.
proof fn turned_holds(f: Functions, cfg: &MixFormerConfig, t: Tensor, x: Heads, start: int, s: int)
    requires
        cfg.addressable(s),
        has(t, seq![1, cfg.num_attention_heads as int, s, cfg.width()]),
        heads_hold(f, t, x, cfg.num_attention_heads as int, s, cfg.width()),
        cfg.width() <= usize::MAX,
    ensures
        ({
            let y = partly_rotated(
                t,
                Tensor::rope_cos(cfg.rope_theta, start, s, cfg.rotated()),
                Tensor::rope_sin(cfg.rope_theta, start, s, cfg.rotated()),
                cfg.width(),
                cfg.rotated(),
            );
            &&& has(y, seq![1, cfg.num_attention_heads as int, s, cfg.width()])
            &&& heads_hold(
                f,
                y,
                turned_in_part(f, cfg, x, start),
                cfg.num_attention_heads as int,
                s,
                cfg.width(),
            )
        }),
{
    broadcast use {extents, readings};

    let heads = cfg.num_attention_heads as int;
    let d = cfg.width();
    let rot = cfg.rotated();
    let cos = Tensor::rope_cos(cfg.rope_theta, start, s, rot);
    let sin = Tensor::rope_sin(cfg.rope_theta, start, s, rot);
    partly_rotated_has(t, cos, sin, heads, s, d, rot);
    let y = partly_rotated(t, cos, sin, d, rot);
    let z = turned_in_part(f, cfg, x, start);
    let half = rot / 2;
    assert forall|g: int, i: int, k: int| 0 <= g < heads && 0 <= i < s && 0 <= k < d implies #[trigger] at4(
        f,
        y,
        0,
        g,
        i,
        k,
    ) == z(g, i)(k) by {
        let (cs, sn) = (
            |m: int| (f.cos)(angle(f, cfg.rope_theta, start + i, rot, m)),
            |m: int| (f.sin)(angle(f, cfg.rope_theta, start + i, rot, m)),
        );
        assert(at4(f, t, 0, g, i, k) == x(g, i)(k));
        if k < rot {
            assert(k + half < d ==> at4(f, t, 0, g, i, k + half) == x(g, i)(k + half));
            assert(k - half >= 0 ==> at4(f, t, 0, g, i, k - half) == x(g, i)(k - half));
            assert(at2(f, cos, i, k) == cs(k));
            assert(at2(f, sin, i, k) == sn(k));
            let part = if rot >= d {
                t
            } else {
                t.narrow(3, 0, rot)
            };
            assert(part.dims =~= seq![1, heads, s, rot]);
            assert(forall|m: int| #[trigger] at4(f, part, 0, g, i, m) == at4(f, t, 0, g, i, m));
            let r = part.rope_with_tables(cos, sin);
            assert(at4(f, r, 0, g, i, k) == turned(
                row4(f, part, 0, g, i),
                row2(f, cos, i),
                row2(f, sin, i),
                half,
                k,
            ));
            assert(at4(f, part, 0, g, i, k) == x(g, i)(k));
            assert(at4(f, part, 0, g, i, k + half) == at4(f, t, 0, g, i, k + half));
            assert(at4(f, part, 0, g, i, k - half) == at4(f, t, 0, g, i, k - half));
            assert(at4(f, y, 0, g, i, k) == at4(f, r, 0, g, i, k));
        } else {
            let r = t.narrow(3, rot, d - rot);
            assert(at4(f, r, 0, g, i, k - rot) == at4(f, t, 0, g, i, k));
        }
    }
}

/// A layer, number by number.
#[verifier::spinoff_prover]
pub proof fn layer_reads(
    f: Functions,
    cfg: &MixFormerConfig,
    w: &MixFormerLayerWeights,
    t: Tensor,
    x: Rows,
    start: int,
    s: int,
)
    requires
        cfg.addressable(s),
        w.sized(cfg),
        has(t, seq![1, s, cfg.hidden_size as int]),
        holds(f, t, x, s, cfg.hidden_size as int),
    ensures
        holds(
            f,
            layer_value(
                cfg,
                w,
                t,
                Tensor::rope_cos(cfg.rope_theta, start, s, cfg.rotated()),
                Tensor::rope_sin(cfg.rope_theta, start, s, cfg.rotated()),
            ),
            after_layer(f, cfg, w, x, start, s),
            s,
            cfg.hidden_size as int,
        ),
{
    broadcast use extents;

    let h = cfg.hidden_size as int;
    let heads = cfg.num_attention_heads as int;
    let d = cfg.width();
    let inner = cfg.inner();
    let cos = Tensor::rope_cos(cfg.rope_theta, start, s, cfg.rotated());
    let sin = Tensor::rope_sin(cfg.rope_theta, start, s, cfg.rotated());
    assert(inner * h == h * inner && h * h <= h * (3 * h)) by (nonlinear_arith)
        requires
            h >= 1,
    ;
    assert(1 <= d <= h) by (nonlinear_arith)
        requires
            heads * d == h,
            heads >= 1,
            h >= 1,
    ;
    let n = t.layer_norm(w.ln_gain@, w.ln_bias@, h, cfg.layer_norm_eps);
    let ns = layer_normed_rows(f, x, w.ln_gain@, w.ln_bias@, h, cfg.layer_norm_eps);
    layer_norm_holds(f, t, x, w.ln_gain@, w.ln_bias@, h, cfg.layer_norm_eps, s);
    let qkv = n.affine(w.wqkv@, w.wqkv_bias@, h, 3 * h);
    let fused = affine_rows(f, ns, w.wqkv@, w.wqkv_bias@, h, 3 * h);
    affine_holds(f, n, ns, w.wqkv@, w.wqkv_bias@, h, 3 * h, s);
    cut_holds(f, qkv, fused, s, 3 * h, 0, h);
    cut_holds(f, qkv, fused, s, 3 * h, h, h);
    cut_holds(f, qkv, fused, s, 3 * h, 2 * h, h);
    split_holds(f, qkv.narrow(2, 0, h), cut_rows(fused, 0), heads, d, s);
    split_holds(f, qkv.narrow(2, h, h), cut_rows(fused, h), heads, d, s);
    split_holds(f, qkv.narrow(2, 2 * h, h), cut_rows(fused, 2 * h), heads, d, s);
    let (q0, k0) = (qkv.narrow(2, 0, h).split_heads(heads, d), qkv.narrow(2, h, h).split_heads(heads, d));
    turned_holds(f, cfg, q0, heads_of(cut_rows(fused, 0), d), start, s);
    turned_holds(f, cfg, k0, heads_of(cut_rows(fused, h), d), start, s);
    let q = partly_rotated(q0, cos, sin, d, cfg.rotated());
    let k = partly_rotated(k0, cos, sin, d, cfg.rotated());
    let v = qkv.narrow(2, 2 * h, h).split_heads(heads, d);
    let qs = turned_in_part(f, cfg, heads_of(cut_rows(fused, 0), d), start);
    let ks = turned_in_part(f, cfg, heads_of(cut_rows(fused, h), d), start);
    let vs = heads_of(cut_rows(fused, 2 * h), d);
    let mask = Tensor::causal_mask(s).reshape(seq![1, 1, s, s]);
    let hidden = |i: int, o: int| o > i;
    causal_mask_hides(f, s);
    let scale = inv_sqrt64(d as usize);
    number_of_scale(f, d as usize);
    assert forall|g: int, o: int, m: int| 0 <= g < heads && 0 <= o < s && 0 <= m < d implies #[trigger] at4(
        f,
        k,
        0,
        g,
        o,
        m,
    ) == ks(g / 1, o)(m) by {}
    assert forall|g: int, o: int, m: int| 0 <= g < heads && 0 <= o < s && 0 <= m < d implies #[trigger] at4(
        f,
        v,
        0,
        g,
        o,
        m,
    ) == vs(g / 1, o)(m) by {}
    masked_holds(f, q, k, v, mask, qs, ks, vs, scale, hidden, heads, 1, s, d);
    let merged = crate::common::masked_attention(q, k, v, scale, mask).merge_heads();
    let seen = mixed_rows(f, qs, ks, vs, d, 1, s, 1real / (f.sqrt)(d as real), hidden);
    affine_holds(f, merged, seen, w.out_proj@, w.out_proj_bias@, h, h, s);
    let attn = merged.affine(w.out_proj@, w.out_proj_bias@, h, h);
    sum_holds(f, t, attn, x, affine_rows(f, seen, w.out_proj@, w.out_proj_bias@, h, h), s, h);
    affine_holds(f, n, ns, w.fc1@, w.fc1_bias@, h, inner, s);
    let up = n.affine(w.fc1@, w.fc1_bias@, h, inner);
    let act = match cfg.hidden_activation {
        MixFormerActivation::Gelu => up.gelu_erf(),
        MixFormerActivation::GeluPytorchTanh => up.gelu(),
    };
    let ups = affine_rows(f, ns, w.fc1@, w.fc1_bias@, h, inner);
    activated_holds(f, cfg, up, ups, s, inner);
    let acts = each(activation(f, cfg), ups);
    affine_holds(f, act, acts, w.fc2@, w.fc2_bias@, inner, h, s);
    sum_holds(
        f,
        t.add(attn),
        act.affine(w.fc2@, w.fc2_bias@, inner, h),
        sum_rows(x, affine_rows(f, seen, w.out_proj@, w.out_proj_bias@, h, h)),
        affine_rows(f, acts, w.fc2@, w.fc2_bias@, inner, h),
        s,
        h,
    );
}

proof fn activated_holds(f: Functions, cfg: &MixFormerConfig, t: Tensor, x: Rows, s: int, n: int)
    requires
        has(t, seq![1, s, n]),
        holds(f, t, x, s, n),
    ensures
        ({
            let y = match cfg.hidden_activation {
                MixFormerActivation::Gelu => t.gelu_erf(),
                MixFormerActivation::GeluPytorchTanh => t.gelu(),
            };
            has(y, seq![1, s, n]) && holds(f, y, each(activation(f, cfg), x), s, n)
        }),
{
    broadcast use {extents, readings};

    let y = match cfg.hidden_activation {
        MixFormerActivation::Gelu => t.gelu_erf(),
        MixFormerActivation::GeluPytorchTanh => t.gelu(),
    };
    assert forall|i: int, k: int| 0 <= i < s && 0 <= k < n implies #[trigger] at3(f, y, 0, i, k) == each(
        activation(f, cfg),
        x,
    )(i)(k) by {
        assert(at3(f, t, 0, i, k) == x(i)(k));
    }
}

/// The first layers, number by number.
pub proof fn layers_read(
    f: Functions,
    cfg: &MixFormerConfig,
    layers: Seq<MixFormerLayerWeights>,
    n: int,
    t: Tensor,
    x: Rows,
    start: int,
    s: int,
)
    requires
        cfg.addressable(s),
        0 <= n <= layers.len(),
        forall|i: int| 0 <= i < layers.len() ==> (#[trigger] layers[i]).sized(cfg),
        has(t, seq![1, s, cfg.hidden_size as int]),
        holds(f, t, x, s, cfg.hidden_size as int),
    ensures
        has(layers_over(cfg, layers, n, t, start, s), seq![1, s, cfg.hidden_size as int]),
        holds(
            f,
            layers_over(cfg, layers, n, t, start, s),
            after_layers(f, cfg, layers, n, x, start, s),
            s,
            cfg.hidden_size as int,
        ),
    decreases n,
{
    broadcast use extents;

    let cos = Tensor::rope_cos(cfg.rope_theta, start, s, cfg.rotated());
    let sin = Tensor::rope_sin(cfg.rope_theta, start, s, cfg.rotated());
    layers_have(cfg, layers, n, t, cos, sin, s);
    if n > 0 {
        layers_read(f, cfg, layers, n - 1, t, x, start, s);
        layer_reads(
            f,
            cfg,
            &layers[n - 1],
            layers_over(cfg, layers, n - 1, t, start, s),
            after_layers(f, cfg, layers, n - 1, x, start, s),
            start,
            s,
        );
    }
}

/// A run over rows, number by number: the states and the logits.
pub proof fn run_reads(f: Functions, model: &MixFormerModel, t: Tensor, x: Rows, start: int, s: int)
    requires
        model.config.addressable(s),
        model.weights.sized(&model.config),
        has(t, seq![1, s, model.config.hidden_size as int]),
        holds(f, t, x, s, model.config.hidden_size as int),
    ensures
        holds(
            f,
            model.hidden(t, start, s),
            final_rows(f, model, x, start, s),
            s,
            model.config.hidden_size as int,
        ),
        holds(
            f,
            model.logits(t, start, s),
            logit_rows(f, model, x, start, s),
            s,
            model.config.vocab_size as int,
        ),
{
    let cfg = &model.config;
    let w = &model.weights;
    let h = cfg.hidden_size as int;
    let v = cfg.vocab_size as int;
    let n = w.layers@.len() as int;
    assert(v * h == h * v) by (nonlinear_arith);
    layers_read(f, cfg, w.layers@, n, t, x, start, s);
    layer_norm_holds(
        f,
        layers_over(cfg, w.layers@, n, t, start, s),
        after_layers(f, cfg, w.layers@, n, x, start, s),
        w.final_ln_gain@,
        w.final_ln_bias@,
        h,
        cfg.layer_norm_eps,
        s,
    );
    affine_holds(
        f,
        model.hidden(t, start, s),
        final_rows(f, model, x, start, s),
        model.head(),
        w.lm_head_bias@,
        h,
        v,
        s,
    );
}

/// A run over tokens, number by number.
pub proof fn tokens_read(f: Functions, model: &MixFormerModel, tokens: Seq<u32>, start: int)
    requires
        model.config.addressable(tokens.len() as int),
        model.weights.sized(&model.config),
    ensures
        holds(
            f,
            model.logits(model.embedded(tokens), start, tokens.len() as int),
            logit_rows(f, model, token_rows(f, model, tokens), start, tokens.len() as int),
            tokens.len() as int,
            model.config.vocab_size as int,
        ),
{
    let h = model.config.hidden_size as int;
    let v = model.config.vocab_size as int;
    assert(v * h == h * v) by (nonlinear_arith);
    embed_has(model.weights.token_embedding@, v, h, tokens);
    embedding_holds(f, model, tokens);
    run_reads(
        f,
        model,
        model.embedded(tokens),
        token_rows(f, model, tokens),
        start,
        tokens.len() as int,
    );
}

/// The embeddings of tokens, number by number.
pub proof fn embedding_holds(f: Functions, model: &MixFormerModel, tokens: Seq<u32>)
    requires
        has(model.embedded(tokens), seq![1, tokens.len() as int, model.config.hidden_size as int]),
    ensures
        holds(
            f,
            model.embedded(tokens),
            token_rows(f, model, tokens),
            tokens.len() as int,
            model.config.hidden_size as int,
        ),
{
    let h = model.config.hidden_size as int;
    let v = model.config.vocab_size as int;
    assert forall|i: int, k: int| 0 <= i < tokens.len() && 0 <= k < h implies #[trigger] at3(
        f,
        model.embedded(tokens),
        0,
        i,
        k,
    ) == token_rows(f, model, tokens)(i)(k) by {
        read_embedding(f, model.weights.token_embedding@, v, h, tokens, i, k);
    }
}

} // verus!
