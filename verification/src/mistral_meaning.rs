//! What Mistral computes, number by number.

use crate::common::{heads_are_shared, masked_attention, swiglu, LayerWeights};
use crate::evaluation::place;
use crate::extents::{broadcast_to_has, embed_has, extents, has, products, reshape_has};
use crate::formulas::{Heads, Rows};
use crate::lazy::Tensor;
use crate::lazy_mistral::{
    by_heads, layer_value, layers_have, layers_over, repeated_heads, repeated_heads_has,
    window_data, window_mask, window_mask_rows, MistralConfig, MistralModel,
};
use crate::meaning::{at, at3, at4, elements, number, under, Functions};
use crate::readings::{number_of_scale, place4, read_embedding, read_reshape};
use crate::rows_read::{
    beyond, by_heads_holds, gated_rows, heads_hold, heads_of, holds, joined_holds, linear_holds, linear_rows,
    mask_data_hides, masked_holds, mixed_rows, rms_norm_holds, rms_normed_rows, rope_holds, roped, sum_holds,
    sum_rows, swiglu_holds,
};
use crate::scalar::{inv_sqrt64, Scalar};
use vstd::prelude::*;

verus! {

/// The rows after attention: those before it, plus what each position attends to
/// within its window. Each head of keys and values serves `rep` heads of queries.
pub open spec fn after_attention(
    f: Functions,
    cfg: &MistralConfig,
    w: &LayerWeights,
    x: Rows,
    start: int,
    s: int,
) -> Rows {
    let h = cfg.hidden_size as int;
    let d = cfg.head_dim as int;
    let kv = cfg.num_key_value_heads * cfg.head_dim;
    let rep = cfg.num_attention_heads as int / cfg.num_key_value_heads as int;
    let n = rms_normed_rows(f, x, w.attn_norm_gain@, h, cfg.rms_norm_eps);
    let q = roped(f, cfg.rope_theta, start, d, heads_of(linear_rows(f, n, w.attn_q@, h, h), d));
    let k = roped(f, cfg.rope_theta, start, d, heads_of(linear_rows(f, n, w.attn_k@, h, kv), d));
    let v = heads_of(linear_rows(f, n, w.attn_v@, h, kv), d);
    let seen = mixed_rows(f, q, k, v, d, rep, s, 1real / (f.sqrt)(d as real), beyond(cfg.sliding_window));
    sum_rows(x, linear_rows(f, seen, w.attn_o@, h, h))
}

/// The rows after a layer: those after attention, plus their feed-forward part.
pub open spec fn after_layer(
    f: Functions,
    cfg: &MistralConfig,
    w: &LayerWeights,
    x: Rows,
    start: int,
    s: int,
) -> Rows {
    let h = cfg.hidden_size as int;
    let y = after_attention(f, cfg, w, x, start, s);
    sum_rows(
        y,
        gated_rows(
            f,
            rms_normed_rows(f, y, w.ffn_norm_gain@, h, cfg.rms_norm_eps),
            w.ffn_gate@,
            w.ffn_up@,
            w.ffn_down@,
            h,
            cfg.intermediate_size as int,
        ),
    )
}

/// The rows after the first `n` layers.
pub open spec fn after_layers(
    f: Functions,
    cfg: &MistralConfig,
    layers: Seq<LayerWeights>,
    n: int,
    x: Rows,
    start: int,
    s: int,
) -> Rows
    decreases n,
{
    if n <= 0 {
        x
    } else {
        after_layer(f, cfg, &layers[n - 1], after_layers(f, cfg, layers, n - 1, x, start, s), start, s)
    }
}

/// The rows of the table of embeddings that tokens select.
pub open spec fn token_rows(f: Functions, table: Seq<Scalar>, width: int, tokens: Seq<u32>) -> Rows {
    |i: int| |k: int| number(f, table[tokens[i] * width + k])
}

pub proof fn embedding_holds(f: Functions, table: Seq<Scalar>, vocab: int, width: int, tokens: Seq<u32>)
    requires
        !Tensor::embed_tokens(table, vocab, width, tokens).bad(),
    ensures
        holds(
            f,
            Tensor::embed_tokens(table, vocab, width, tokens),
            token_rows(f, table, width, tokens),
            tokens.len() as int,
            width,
        ),
{
    let e = Tensor::embed_tokens(table, vocab, width, tokens);
    assert forall|i: int, k: int| 0 <= i < tokens.len() && 0 <= k < width implies #[trigger] at3(f, e, 0, i, k)
        == token_rows(f, table, width, tokens)(i)(k) by {
        read_embedding(f, table, vocab, width, tokens, i, k);
    }
}

proof fn place5(a: int, b: int, c: int, d: int, e: int, k: int, l: int, m: int, n: int, o: int)
    ensures
        place(seq![a, b, c, d, e], seq![k, l, m, n, o]) == (((a * l + b) * m + c) * n + d) * o + e,
{
    reveal_with_fuel(place, 2);
    place4(a, b, c, d, k, l, m, n);
    assert(seq![a, b, c, d, e].drop_last() =~= seq![a, b, c, d]);
    assert(seq![k, l, m, n, o].drop_last() =~= seq![k, l, m, n]);
}

/// Key or value heads, each for the query heads that share it.
#[verifier::spinoff_prover]
pub proof fn repeated_reads(f: Functions, t: Tensor, x: Heads, s: int, kvh: int, heads: int, d: int)
    requires
        has(t, seq![1, kvh, s, d]),
        heads_hold(f, t, x, kvh, s, d),
        s >= 1,
        kvh >= 1,
        d >= 1,
        heads / kvh >= 1,
        kvh * (heads / kvh) == heads,
        s * (heads * d) <= usize::MAX,
    ensures
        has(repeated_heads(t, 1, s, kvh, heads, d), seq![1, heads, s, d]),
        forall|g: int, i: int, k: int|
            0 <= g < heads && 0 <= i < s && 0 <= k < d ==> #[trigger] at4(
                f,
                repeated_heads(t, 1, s, kvh, heads, d),
                0,
                g,
                i,
                k,
            ) == x(g / (heads / kvh), i)(k),
{
    let n = heads / kvh;
    repeated_heads_has(t, s, kvh, heads, d);
    let y = repeated_heads(t, 1, s, kvh, heads, d);
    assert forall|g: int, i: int, k: int| 0 <= g < heads && 0 <= i < s && 0 <= k < d implies #[trigger] at4(
        f,
        y,
        0,
        g,
        i,
        k,
    ) == x(g / n, i)(k) by {
        if n == 1 {
            assert(g / n == g) by (nonlinear_arith)
                requires
                    n == 1,
            ;
            assert(at4(f, t, 0, g, i, k) == x(g, i)(k));
        } else {
            vstd::arithmetic::div_mod::lemma_fundamental_div_mod(g, n);
            let (a, b) = (g / n, g % n);
            assert(0 <= a < kvh) by (nonlinear_arith)
                requires
                    0 <= g < kvh * n,
                    n >= 1,
                    a == g / n,
            ;
            products(1, kvh, s, d, 1, 1);
            products(1, kvh, 1, s, d, 1);
            products(1, kvh, n, s, d, 1);
            assert(1 * kvh * 1 * s * d == 1 * kvh * s * d) by (nonlinear_arith);
            assert(1 * kvh * n * s * d == s * (heads * d)) by (nonlinear_arith)
                requires
                    kvh * n == heads,
            ;
            assert(1 * kvh * s * d <= s * (heads * d)) by (nonlinear_arith)
                requires
                    kvh * n == heads,
                    n >= 1,
                    kvh >= 1,
                    s >= 1,
                    d >= 1,
            ;
            let one = seq![1, kvh, 1, s, d];
            let many = seq![1, kvh, n, s, d];
            let r = t.reshape(one);
            reshape_has(t, one);
            broadcast_to_has(r, many);
            let wide = r.broadcast_to(many);
            let (spot, flat) = (seq![0, a, b, i, k], seq![0, a, 0, i, k]);
            place4(0, g, i, k, 1, heads, s, d);
            place5(0, a, b, i, k, 1, kvh, n, s, d);
            assert((((0 * kvh + a) * n + b) * s + i) * d + k == ((0 * heads + g) * s + i) * d + k)
                by (nonlinear_arith)
                requires
                    g == n * a + b,
            ;
            read_reshape(f, wide, seq![1, heads, s, d], spot, seq![0, g, i, k]);
            assert(under(spot, one) =~= flat);
            assert(at(f, wide, spot) == at(f, r, flat)) by {
                reveal(Tensor::broadcast_to);
                reveal(elements);
            }
            place4(0, a, i, k, 1, kvh, s, d);
            place5(0, a, 0, i, k, 1, kvh, 1, s, d);
            assert((((0 * kvh + a) * 1 + 0) * s + i) * d + k == ((0 * kvh + a) * s + i) * d + k)
                by (nonlinear_arith);
            read_reshape(f, t, one, seq![0, a, i, k], flat);
            assert(at4(f, t, 0, a, i, k) == x(a, i)(k));
            assert(at4(f, y, 0, g, i, k) == at(f, wide, spot));
            assert(at(f, r, flat) == at4(f, t, 0, a, i, k));
        }
    }
}

/// The mask of a window hides what comes later and what lies before the window.
pub proof fn window_hides(f: Functions, window: Option<usize>, s: int)
    requires
        s >= 1,
        s * s <= usize::MAX,
    ensures
        has(window_mask(window, s), seq![1, 1, s, s]),
        crate::rows_read::hides(f, window_mask(window, s), beyond(window), s, s),
{
    let data = window_data(window, s);
    let hidden = beyond(window);
    assert forall|i: int, o: int| 0 <= i < s && 0 <= o < s implies data[i * s + o] == crate::common::mask_value(
        #[trigger] hidden(i, o),
    ) by {
        window_mask_rows(window, s, i, o);
    }
    assert(s * s >= 0) by (nonlinear_arith);
    mask_data_hides(f, data, hidden, s);
}

/// A layer, number by number.
#[verifier::spinoff_prover]
pub proof fn layer_reads(
    f: Functions,
    cfg: &MistralConfig,
    w: &LayerWeights,
    t: Tensor,
    x: Rows,
    start: int,
    s: int,
)
    requires
        cfg.addressable(s),
        w.sized(cfg.hidden_size as int, cfg.kv(), cfg.intermediate_size as int),
        has(t, seq![1, s, cfg.hidden_size as int]),
        holds(f, t, x, s, cfg.hidden_size as int),
    ensures
        holds(
            f,
            layer_value(
                cfg,
                w,
                t,
                Tensor::rope_cos(cfg.rope_theta, start, s, cfg.head_dim as int),
                Tensor::rope_sin(cfg.rope_theta, start, s, cfg.head_dim as int),
                window_mask(cfg.sliding_window, s),
            ),
            after_layer(f, cfg, w, x, start, s),
            s,
            cfg.hidden_size as int,
        ),
{
    let h = cfg.hidden_size as int;
    let heads = cfg.num_attention_heads as int;
    let kvh = cfg.num_key_value_heads as int;
    let d = cfg.head_dim as int;
    let kv = cfg.kv();
    let rep = heads / kvh;
    let inner = cfg.intermediate_size as int;
    heads_are_shared(heads, kvh, d);
    assert(h * kv <= h * h && kv <= h * kv) by (nonlinear_arith)
        requires
            1 <= kv <= h,
    ;
    assert(s * kv <= s * h) by (nonlinear_arith)
        requires
            1 <= kv <= h,
            s >= 1,
    ;
    assert(inner * h == h * inner) by (nonlinear_arith);
    let theta = cfg.rope_theta;
    let (cos, sin) = (Tensor::rope_cos(theta, start, s, d), Tensor::rope_sin(theta, start, s, d));
    let mask = window_mask(cfg.sliding_window, s);
    let hidden = beyond(cfg.sliding_window);
    window_hides(f, cfg.sliding_window, s);
    let n = t.rms_norm(w.attn_norm_gain@, h, cfg.rms_norm_eps);
    let ns = rms_normed_rows(f, x, w.attn_norm_gain@, h, cfg.rms_norm_eps);
    rms_norm_holds(f, t, x, w.attn_norm_gain@, h, cfg.rms_norm_eps, s);
    linear_holds(f, n, ns, w.attn_q@, h, h, s);
    linear_holds(f, n, ns, w.attn_k@, h, kv, s);
    linear_holds(f, n, ns, w.attn_v@, h, kv, s);
    let (ql, kl, vl) = (n.linear(w.attn_q@, h, h), n.linear(w.attn_k@, h, kv), n.linear(w.attn_v@, h, kv));
    let (qr, kr, vr) = (
        linear_rows(f, ns, w.attn_q@, h, h),
        linear_rows(f, ns, w.attn_k@, h, kv),
        linear_rows(f, ns, w.attn_v@, h, kv),
    );
    by_heads_holds(f, ql, qr, heads, d, s);
    by_heads_holds(f, kl, kr, kvh, d, s);
    by_heads_holds(f, vl, vr, kvh, d, s);
    rope_holds(f, by_heads(ql, 1, s, heads, d), heads_of(qr, d), theta, start, heads, s, d);
    rope_holds(f, by_heads(kl, 1, s, kvh, d), heads_of(kr, d), theta, start, kvh, s, d);
    let q = by_heads(ql, 1, s, heads, d).rope_with_tables(cos, sin);
    let k = by_heads(kl, 1, s, kvh, d).rope_with_tables(cos, sin);
    let v = by_heads(vl, 1, s, kvh, d);
    let (qs, ks, vs) = (
        roped(f, theta, start, d, heads_of(qr, d)),
        roped(f, theta, start, d, heads_of(kr, d)),
        heads_of(vr, d),
    );
    repeated_reads(f, k, ks, s, kvh, heads, d);
    repeated_reads(f, v, vs, s, kvh, heads, d);
    let kk = repeated_heads(k, 1, s, kvh, heads, d);
    let vv = repeated_heads(v, 1, s, kvh, heads, d);
    let scale = inv_sqrt64(cfg.head_dim);
    number_of_scale(f, cfg.head_dim);
    masked_holds(f, q, kk, vv, mask, qs, ks, vs, scale, hidden, heads, rep, s, d);
    let ctx = masked_attention(q, kk, vv, scale, mask);
    let seen = mixed_rows(f, qs, ks, vs, d, rep, s, 1real / (f.sqrt)(d as real), hidden);
    joined_holds(f, ctx, seen, heads, d, s);
    let merged = ctx.permute(seq![0, 2, 1, 3]).reshape(seq![1, s, h]);
    linear_holds(f, merged, seen, w.attn_o@, h, h, s);
    let out = merged.linear(w.attn_o@, h, h);
    sum_holds(f, t, out, x, linear_rows(f, seen, w.attn_o@, h, h), s, h);
    let h1 = t.add(out);
    let ys = after_attention(f, cfg, w, x, start, s);
    assert(holds(f, h1, ys, s, h));
    rms_norm_holds(f, h1, ys, w.ffn_norm_gain@, h, cfg.rms_norm_eps, s);
    let m = h1.rms_norm(w.ffn_norm_gain@, h, cfg.rms_norm_eps);
    let ms = rms_normed_rows(f, ys, w.ffn_norm_gain@, h, cfg.rms_norm_eps);
    swiglu_holds(f, m, ms, w.ffn_gate@, w.ffn_up@, w.ffn_down@, h, inner, s);
    sum_holds(
        f,
        h1,
        swiglu(m, w.ffn_gate@, w.ffn_up@, w.ffn_down@, h, inner),
        ys,
        gated_rows(f, ms, w.ffn_gate@, w.ffn_up@, w.ffn_down@, h, inner),
        s,
        h,
    );
}

/// The first layers, number by number.
pub proof fn layers_read(
    f: Functions,
    cfg: &MistralConfig,
    layers: Seq<LayerWeights>,
    n: int,
    t: Tensor,
    x: Rows,
    start: int,
    s: int,
)
    requires
        cfg.addressable(s),
        0 <= n <= layers.len(),
        forall|i: int|
            0 <= i < layers.len() ==> (#[trigger] layers[i]).sized(
                cfg.hidden_size as int,
                cfg.kv(),
                cfg.intermediate_size as int,
            ),
        has(t, seq![1, s, cfg.hidden_size as int]),
        holds(f, t, x, s, cfg.hidden_size as int),
    ensures
        has(layers_over(cfg, layers, n, t, start, s), seq![1, s, cfg.hidden_size as int]),
        holds(
            f,
            layers_over(cfg, layers, n, t, start, s),
            after_layers(f, cfg, layers, n, x, start, s),
            s,
            cfg.hidden_size as int,
        ),
    decreases n,
{
    broadcast use extents;

    let cos = Tensor::rope_cos(cfg.rope_theta, start, s, cfg.head_dim as int);
    let sin = Tensor::rope_sin(cfg.rope_theta, start, s, cfg.head_dim as int);
    window_hides(f, cfg.sliding_window, s);
    layers_have(cfg, layers, n, t, cos, sin, window_mask(cfg.sliding_window, s), s);
    if n > 0 {
        layers_read(f, cfg, layers, n - 1, t, x, start, s);
        layer_reads(
            f,
            cfg,
            &layers[n - 1],
            layers_over(cfg, layers, n - 1, t, start, s),
            after_layers(f, cfg, layers, n - 1, x, start, s),
            start,
            s,
        );
    }
}

/// The logits, number by number: the embeddings of the tokens through all layers in
/// order, normed, and mapped to the vocabulary.
pub proof fn logits_read(f: Functions, model: &MistralModel, tokens: Seq<u32>, start: int)
    requires
        model.config.addressable(tokens.len() as int),
        model.weights.sized(&model.config),
    ensures
        ({
            let cfg = &model.config;
            let w = &model.weights;
            let h = cfg.hidden_size as int;
            let s = tokens.len() as int;
            let x = token_rows(f, w.token_embedding@, h, tokens);
            let y = after_layers(f, cfg, w.layers@, w.layers@.len() as int, x, start, s);
            holds(
                f,
                model.logits(tokens, start),
                linear_rows(
                    f,
                    rms_normed_rows(f, y, w.final_norm_gain@, h, cfg.rms_norm_eps),
                    w.output@,
                    h,
                    cfg.vocab_size as int,
                ),
                s,
                cfg.vocab_size as int,
            )
        }),
{
    let cfg = &model.config;
    let w = &model.weights;
    let h = cfg.hidden_size as int;
    let v = cfg.vocab_size as int;
    let s = tokens.len() as int;
    let last = w.layers@.len() as int;
    assert(v * h == h * v) by (nonlinear_arith);
    embed_has(w.token_embedding@, v, h, tokens);
    let e = Tensor::embed_tokens(w.token_embedding@, v, h, tokens);
    let x = token_rows(f, w.token_embedding@, h, tokens);
    embedding_holds(f, w.token_embedding@, v, h, tokens);
    layers_read(f, cfg, w.layers@, last, e, x, start, s);
    let y = after_layers(f, cfg, w.layers@, last, x, start, s);
    let t = layers_over(cfg, w.layers@, last, e, start, s);
    rms_norm_holds(f, t, y, w.final_norm_gain@, h, cfg.rms_norm_eps, s);
    linear_holds(
        f,
        t.rms_norm(w.final_norm_gain@, h, cfg.rms_norm_eps),
        rms_normed_rows(f, y, w.final_norm_gain@, h, cfg.rms_norm_eps),
        w.output@,
        h,
        v,
        s,
    );
}

} // verus!
