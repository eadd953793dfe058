//! What MPT computes, number by number.

use crate::common::{heads_are_shared, masked_attention};
use crate::extents::{embed_has, extents, has};
use crate::formulas::Rows;
use crate::lazy::Tensor;
use crate::lazy_mpt::{
    alibi_data, alibi_mask_rows, alibi_tensor, alibi_tensor_has, doubled_to, layer_value,
    layers_have, layers_value, normed, MptConfig, MptLayerWeights, MptModel,
};
use crate::meaning::{at3, at4, decoded, low4, number, scaled, Functions};
use crate::mistral_meaning::{embedding_holds, token_rows};
use crate::readings::{number_of_scale, numbers_zero_one, place4, read_constant, readings};
use crate::rows_read::{
    biased_mask_holds, each, heads_of, holds, layer_norm_holds, layer_normed_rows, linear_holds, linear_rows,
    mixed_rows_with, repeat_holds, split_holds, sum_holds, sum_rows,
};
use crate::scalar::{inv_sqrt64, Scalar};
use vstd::arithmetic::power2::pow2;
use vstd::prelude::*;

verus! {

/// Slope number `v` of `n2`.
pub open spec fn slope_number(f: Functions, v: int, bias_max: int, n2: int) -> real {
    1real / (f.pow)(2real, (v * bias_max) as real / n2 as real)
}

/// The rows after a layer: those before it, plus what each position attends to
/// among itself and those before it, where the score of a position falls with its
/// distance by the slope of the head; then plus the feed-forward part of the sum.
pub open spec fn after_layer(f: Functions, cfg: &MptConfig, w: &MptLayerWeights, x: Rows, s: int) -> Rows {
    let m = cfg.d_model as int;
    let d = cfg.width();
    let kv = cfg.kv_n_heads * d;
    let n = layer_normed_rows(f, x, w.norm1_gain@, w.norm1_bias@, m, cfg.layer_norm_eps);
    let seen = mixed_rows_with(
        f,
        heads_of(linear_rows(f, n, w.attn_q@, m, m), d),
        heads_of(linear_rows(f, n, w.attn_k@, m, kv), d),
        heads_of(linear_rows(f, n, w.attn_v@, m, kv), d),
        d,
        cfg.n_heads as int / cfg.kv_n_heads as int,
        s,
        1real / (f.sqrt)(d as real),
        |g: int, i: int, o: int| number(f, cfg.slopes()[g]) * (o as real - i as real),
        |i: int, o: int| o > i,
    );
    let y = sum_rows(x, linear_rows(f, seen, w.attn_o@, m, m));
    let u = layer_normed_rows(f, y, w.norm2_gain@, w.norm2_bias@, m, cfg.layer_norm_eps);
    let ffn = cfg.d_model * cfg.expansion_ratio;
    sum_rows(y, linear_rows(f, each(f.gelu_erf, linear_rows(f, u, w.mlp_up@, m, ffn)), w.mlp_down@, ffn, m))
}

/// The rows after the first `n` layers.
pub open spec fn after_layers(
    f: Functions,
    cfg: &MptConfig,
    layers: Seq<MptLayerWeights>,
    n: int,
    x: Rows,
    s: int,
) -> Rows
    decreases n,
{
    if n <= 0 {
        x
    } else {
        after_layer(f, cfg, &layers[n - 1], after_layers(f, cfg, layers, n - 1, x, s), s)
    }
}

proof fn doubled_is_power(n: int, j: nat, k: nat)
    requires
        pow2(k) >= n,
        k > 0 ==> pow2((k - 1) as nat) < n,
        j <= k,
    ensures
        doubled_to(n, pow2(j) as int) == pow2(k),
    decreases k - j,
{
    vstd::arithmetic::power2::lemma_pow2_pos(j);
    if j < k {
        if j < k - 1 {
            vstd::arithmetic::power2::lemma_pow2_strictly_increases(j, (k - 1) as nat);
        }
        vstd::arithmetic::power2::lemma_pow2_unfold(j + 1);
        doubled_is_power(n, j + 1, k);
    }
}

proof fn number_two(f: Functions)
    ensures
        number(f, Scalar::F32(0x4000_0000)) == 2real,
{
    vstd::arithmetic::power2::lemma2_to64();
    assert(decoded(0x4000_0000, 23, 256, 127) == 2real) by {
        assert(0x4000_0000int / 0x800000 == 128);
        let p = 0x400000int as real;
        assert(p * 2real / p == 2real) by (nonlinear_arith)
            requires
                p > 0real,
        ;
        assert(scaled(0x800000, -22) == 2real);
    }
}

/// The slopes: with `n2` the least power of two that is no less than the number of
/// heads, head `g` has slope number `g + 1` of `n2` where there are `n2` heads; else
/// the heads first take the even slopes of `n2` in order, and then the odd ones.
pub proof fn slopes_read(f: Functions, cfg: &MptConfig, k: nat, g: int)
    requires
        cfg.sloped(),
        0 <= g < cfg.n_heads,
        pow2(k) >= cfg.n_heads,
        k > 0 ==> pow2((k - 1) as nat) < cfg.n_heads,
    ensures
        ({
            let n2 = pow2(k) as int;
            let b = cfg.alibi_bias_max as int;
            number(f, cfg.slopes()[g]) == if n2 == cfg.n_heads {
                slope_number(f, g + 1, b, n2)
            } else if g < n2 / 2 {
                slope_number(f, 2 * g + 2, b, n2)
            } else {
                slope_number(f, 2 * (g - n2 / 2) + 1, b, n2)
            }
        }),
{
    vstd::arithmetic::power2::lemma2_to64();
    doubled_is_power(cfg.n_heads as int, 0, k);
    numbers_zero_one(f);
    number_two(f);
    reveal_with_fuel(number, 5);
    let n = cfg.n_heads as int;
    let n2 = pow2(k) as int;
    let b = cfg.alibi_bias_max as int;
    vstd::arithmetic::power2::lemma_pow2_pos(k);
    if k > 0 {
        vstd::arithmetic::power2::lemma_pow2_unfold(k);
    }
    let v = if n2 == n {
        g + 1
    } else if g < n2 / 2 {
        2 * g + 2
    } else {
        2 * (g - n2 / 2) + 1
    };
    assert(0 <= v <= 2 * n);
    assert(0 <= v * b <= 2 * n * b) by (nonlinear_arith)
        requires
            0 <= v <= 2 * n,
            b >= 0,
    ;
    assert(cfg.slopes()[g] == crate::lazy_mpt::slope(v, b, n2));
    assert(((v * b) as usize) as int == v * b);
    assert((n2 as usize) as int == n2);
}

/// The mask, number by number.
proof fn mask_reads(f: Functions, cfg: &MptConfig, s: int, g: int, i: int, o: int)
    requires
        cfg.addressable(s),
        0 <= g < cfg.n_heads,
        0 <= i < s,
        0 <= o < s,
    ensures
        low4(alibi_tensor(cfg, s), 0, g, i, o) == (o > i),
        o <= i ==> at4(f, alibi_tensor(cfg, s), 0, g, i, o) == number(f, cfg.slopes()[g]) * (o as real - i as real),
{
    let heads = cfg.n_heads as int;
    alibi_tensor_has(cfg, s);
    place4(0, g, i, o, 1, heads, s, s);
    assert(0 * heads == 0) by (nonlinear_arith);
    read_constant(f, alibi_data(s, cfg.slopes()), seq![1, heads, s, s], seq![0, g, i, o]);
    alibi_mask_rows(s, cfg.slopes(), g, i, o);
    assert(s <= usize::MAX) by (nonlinear_arith)
        requires
            heads * s * s <= usize::MAX,
            heads >= 1,
            s >= 1,
    ;
    reveal_with_fuel(number, 4);
}

proof fn norm_holds(f: Functions, t: Tensor, x: Rows, gain: Seq<Scalar>, bias: Seq<Scalar>, m: int, eps: Scalar, s: int)
    requires
        has(t, seq![1, s, m]),
        holds(f, t, x, s, m),
        gain.len() == m,
        bias.len() == m,
        1 <= m <= usize::MAX,
    ensures
        has(normed(t, gain, bias, eps), seq![1, s, m]),
        holds(f, normed(t, gain, bias, eps), layer_normed_rows(f, x, gain, bias, m, eps), s, m),
{
    layer_norm_holds(f, t, x, gain, bias, m, eps, s);
}

/// A layer, number by number.
#[verifier::spinoff_prover]
pub proof fn layer_reads(f: Functions, cfg: &MptConfig, w: &MptLayerWeights, t: Tensor, x: Rows, s: int)
    requires
        cfg.addressable(s),
        w.sized(cfg),
        has(t, seq![1, s, cfg.d_model as int]),
        holds(f, t, x, s, cfg.d_model as int),
    ensures
        holds(
            f,
            layer_value(cfg, w, t, alibi_tensor(cfg, s)),
            after_layer(f, cfg, w, x, s),
            s,
            cfg.d_model as int,
        ),
{
    broadcast use extents;

    let m = cfg.d_model as int;
    let heads = cfg.n_heads as int;
    let kvh = cfg.kv_n_heads as int;
    let d = cfg.width();
    let kv = cfg.kv();
    let rep = heads / kvh;
    let ffn = cfg.ffn();
    assert(d >= 1) by (nonlinear_arith)
        requires
            heads * d >= 1,
            heads >= 1,
    ;
    heads_are_shared(heads, kvh, d);
    assert(m * kv <= m * m) by (nonlinear_arith)
        requires
            1 <= kv <= m,
    ;
    assert(ffn >= 1) by (nonlinear_arith)
        requires
            ffn == m * cfg.expansion_ratio,
            m >= 1,
            cfg.expansion_ratio >= 1,
    ;
    assert(ffn * m == m * ffn) by (nonlinear_arith);
    let eps = cfg.layer_norm_eps;
    let n = normed(t, w.norm1_gain@, w.norm1_bias@, eps);
    let ns = layer_normed_rows(f, x, w.norm1_gain@, w.norm1_bias@, m, eps);
    norm_holds(f, t, x, w.norm1_gain@, w.norm1_bias@, m, eps, s);
    linear_holds(f, n, ns, w.attn_q@, m, m, s);
    linear_holds(f, n, ns, w.attn_k@, m, kv, s);
    linear_holds(f, n, ns, w.attn_v@, m, kv, s);
    let (qr, kr, vr) = (
        linear_rows(f, ns, w.attn_q@, m, m),
        linear_rows(f, ns, w.attn_k@, m, kv),
        linear_rows(f, ns, w.attn_v@, m, kv),
    );
    split_holds(f, n.linear(w.attn_q@, m, m), qr, heads, d, s);
    split_holds(f, n.linear(w.attn_k@, m, kv), kr, kvh, d, s);
    split_holds(f, n.linear(w.attn_v@, m, kv), vr, kvh, d, s);
    let q = n.linear(w.attn_q@, m, m).split_heads(heads, d);
    let k = n.linear(w.attn_k@, m, kv).split_heads(kvh, d);
    let v = n.linear(w.attn_v@, m, kv).split_heads(kvh, d);
    let (qs, ks, vs) = (heads_of(qr, d), heads_of(kr, d), heads_of(vr, d));
    repeat_holds(f, k, ks, kvh, rep, d, s);
    repeat_holds(f, v, vs, kvh, rep, d, s);
    let (kk, vv) = (k.repeat_interleave(1, rep), v.repeat_interleave(1, rep));
    let mask = alibi_tensor(cfg, s);
    alibi_tensor_has(cfg, s);
    let bias = |g: int, i: int, o: int| number(f, cfg.slopes()[g]) * (o as real - i as real);
    let hidden = |i: int, o: int| o > i;
    assert forall|g: int, i: int, o: int| 0 <= g < heads && 0 <= i < s && 0 <= o < s implies #[trigger] low4(
        mask,
        0,
        g,
        i,
        o,
    ) == hidden(i, o) by {
        mask_reads(f, cfg, s, g, i, o);
    }
    assert forall|g: int, i: int, o: int|
        0 <= g < heads && 0 <= i < s && 0 <= o < s && !hidden(i, o) implies #[trigger] at4(f, mask, 0, g, i, o)
        == bias(g, i, o) by {
        mask_reads(f, cfg, s, g, i, o);
    }
    let scale = inv_sqrt64(d as usize);
    number_of_scale(f, d as usize);
    biased_mask_holds(f, q, kk, vv, mask, qs, ks, vs, scale, bias, hidden, heads, rep, s, d);
    let merged = masked_attention(q, kk, vv, scale, mask).merge_heads();
    let seen = mixed_rows_with(f, qs, ks, vs, d, rep, s, 1real / (f.sqrt)(d as real), bias, hidden);
    linear_holds(f, merged, seen, w.attn_o@, m, m, s);
    let out = merged.linear(w.attn_o@, m, m);
    sum_holds(f, t, out, x, linear_rows(f, seen, w.attn_o@, m, m), s, m);
    let h1 = t.add(out);
    let ys = sum_rows(x, linear_rows(f, seen, w.attn_o@, m, m));
    norm_holds(f, h1, ys, w.norm2_gain@, w.norm2_bias@, m, eps, s);
    let u = normed(h1, w.norm2_gain@, w.norm2_bias@, eps);
    let us = layer_normed_rows(f, ys, w.norm2_gain@, w.norm2_bias@, m, eps);
    linear_holds(f, u, us, w.mlp_up@, m, ffn, s);
    let up = u.linear(w.mlp_up@, m, ffn);
    let ups = linear_rows(f, us, w.mlp_up@, m, ffn);
    gelu_erf_holds(f, up, ups, s, ffn);
    linear_holds(f, up.gelu_erf(), each(f.gelu_erf, ups), w.mlp_down@, ffn, m, s);
    sum_holds(
        f,
        h1,
        up.gelu_erf().linear(w.mlp_down@, ffn, m),
        ys,
        linear_rows(f, each(f.gelu_erf, ups), w.mlp_down@, ffn, m),
        s,
        m,
    );
}

pub proof fn gelu_erf_holds(f: Functions, t: Tensor, x: Rows, s: int, n: int)
    requires
        has(t, seq![1, s, n]),
        holds(f, t, x, s, n),
    ensures
        has(t.gelu_erf(), seq![1, s, n]),
        holds(f, t.gelu_erf(), each(f.gelu_erf, x), s, n),
{
    broadcast use {extents, readings};

    assert forall|i: int, k: int| 0 <= i < s && 0 <= k < n implies #[trigger] at3(f, t.gelu_erf(), 0, i, k) == each(
        f.gelu_erf,
        x,
    )(i)(k) by {
        assert(at3(f, t, 0, i, k) == x(i)(k));
    }
}

/// The first layers, number by number.
pub proof fn layers_read(
    f: Functions,
    cfg: &MptConfig,
    layers: Seq<MptLayerWeights>,
    n: int,
    t: Tensor,
    x: Rows,
    s: int,
)
    requires
        cfg.addressable(s),
        0 <= n <= layers.len(),
        forall|i: int| 0 <= i < layers.len() ==> (#[trigger] layers[i]).sized(cfg),
        has(t, seq![1, s, cfg.d_model as int]),
        holds(f, t, x, s, cfg.d_model as int),
    ensures
        has(layers_value(cfg, layers, n, t, alibi_tensor(cfg, s)), seq![1, s, cfg.d_model as int]),
        holds(
            f,
            layers_value(cfg, layers, n, t, alibi_tensor(cfg, s)),
            after_layers(f, cfg, layers, n, x, s),
            s,
            cfg.d_model as int,
        ),
    decreases n,
{
    alibi_tensor_has(cfg, s);
    layers_have(cfg, layers, n, t, alibi_tensor(cfg, s), s);
    if n > 0 {
        layers_read(f, cfg, layers, n - 1, t, x, s);
        layer_reads(
            f,
            cfg,
            &layers[n - 1],
            layers_value(cfg, layers, n - 1, t, alibi_tensor(cfg, s)),
            after_layers(f, cfg, layers, n - 1, x, s),
            s,
        );
    }
}

/// The logits of tokens, number by number.
pub proof fn logits_read(f: Functions, model: &MptModel, tokens: Seq<u32>)
    requires
        model.config.addressable(tokens.len() as int),
        model.weights.sized(&model.config),
    ensures
        ({
            let cfg = &model.config;
            let w = &model.weights;
            let m = cfg.d_model as int;
            let s = tokens.len() as int;
            let x = token_rows(f, w.token_embedding@, m, tokens);
            let y = after_layers(f, cfg, w.layers@, w.layers@.len() as int, x, s);
            holds(
                f,
                model.logits(model.embedded(tokens)),
                linear_rows(
                    f,
                    layer_normed_rows(f, y, w.final_ln_gain@, w.final_ln_bias@, m, cfg.layer_norm_eps),
                    w.output@,
                    m,
                    cfg.vocab_size as int,
                ),
                s,
                cfg.vocab_size as int,
            )
        }),
{
    let cfg = &model.config;
    let w = &model.weights;
    let m = cfg.d_model as int;
    let v = cfg.vocab_size as int;
    let s = tokens.len() as int;
    let last = w.layers@.len() as int;
    assert(v * m == m * v) by (nonlinear_arith);
    embed_has(w.token_embedding@, v, m, tokens);
    let e = model.embedded(tokens);
    let x = token_rows(f, w.token_embedding@, m, tokens);
    embedding_holds(f, w.token_embedding@, v, m, tokens);
    layers_read(f, cfg, w.layers@, last, e, x, s);
    let y = after_layers(f, cfg, w.layers@, last, x, s);
    let t = layers_value(cfg, w.layers@, last, e, alibi_tensor(cfg, s));
    norm_holds(f, t, y, w.final_ln_gain@, w.final_ln_bias@, m, cfg.layer_norm_eps, s);
    assert(model.hidden(e) == normed(t, w.final_ln_gain@, w.final_ln_bias@, cfg.layer_norm_eps));
    linear_holds(
        f,
        model.hidden(e),
        layer_normed_rows(f, y, w.final_ln_gain@, w.final_ln_bias@, m, cfg.layer_norm_eps),
        w.output@,
        m,
        v,
        s,
    );
}

} // verus!
