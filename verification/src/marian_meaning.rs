//! What Marian computes, number by number.

use crate::common::{causal_data, causal_mask_rows, causal_tensor, tied_head};
use crate::extents::{broadcast_add_under, constant_has, extents, has, lies_under, products};
use crate::formulas::{dot, Rows};
use crate::lazy::Tensor;
use crate::lazy_marian::{
    attention_value, decoder_layer, decoder_layers, embedded_parts, encoder_layer, encoder_layers,
    ffn_value, heads_fill, position_table, position_table_rows, post_norm, projected,
    MarianActivation, MarianAttentionWeights, MarianConfig, MarianDecoderLayerWeights,
    MarianEncoderLayerWeights, MarianModel,
};
use crate::meaning::{at2, at3, at4, decoded, larger, low4, number, scaled, silu, Functions};
use crate::mistral_meaning::{embedding_holds, token_rows};
use crate::readings::{
    numbers_zero_one, pick, place2, place3, read_broadcast3, read_reshape, readings,
};
use crate::rows_read::{
    affine_holds, affine_rows, all_seen, averaged_holds, averaged_rows, each, heads_of, hides,
    holds, layer_norm_holds, layer_normed_rows, mask_data_hides, products_read, split_holds,
    sum_holds, sum_rows,
};
use crate::scalar::{pow64, sqrt64, Precision, Scalar};
use vstd::prelude::*;

verus! {

/// What each of the rows `x` attends to among the `t` rows `y`, projected. The
/// queries come from `x`, the keys and values from `y`.
pub open spec fn attended_rows(
    f: Functions,
    cfg: &MarianConfig,
    w: &MarianAttentionWeights,
    x: Rows,
    y: Rows,
    d: int,
    hidden: spec_fn(int, int) -> bool,
    t: int,
) -> Rows {
    let m = cfg.d_model as int;
    let q = heads_of(affine_rows(f, x, w.q_proj@, w.q_proj_bias@, m, m), d);
    let k = heads_of(affine_rows(f, y, w.k_proj@, w.k_proj_bias@, m, m), d);
    let v = heads_of(affine_rows(f, y, w.v_proj@, w.v_proj_bias@, m, m), d);
    let scale = (f.pow)(d as real, -(1real / 2real));
    affine_rows(
        f,
        averaged_rows(
            f,
            |g: int, i: int, o: int| dot(d, |z: int| q(g, i)(z) * scale, k(g, o)),
            hidden,
            v,
            d,
            1,
            t,
        ),
        w.out_proj@,
        w.out_proj_bias@,
        m,
        m,
    )
}

/// The activation of the feed-forward part.
pub open spec fn activation(f: Functions, cfg: &MarianConfig) -> spec_fn(real) -> real {
    match cfg.activation_function {
        MarianActivation::Relu => |x: real| larger(x, 0real),
        MarianActivation::Silu => |x: real| silu(f, x),
        MarianActivation::Gelu => f.gelu_erf,
        MarianActivation::GeluPytorchTanh => f.gelu,
    }
}

/// The feed-forward part of each row.
pub open spec fn fed_rows(
    f: Functions,
    cfg: &MarianConfig,
    x: Rows,
    w1: Seq<Scalar>,
    b1: Seq<Scalar>,
    w2: Seq<Scalar>,
    b2: Seq<Scalar>,
    inner: int,
) -> Rows {
    let m = cfg.d_model as int;
    affine_rows(f, each(activation(f, cfg), affine_rows(f, x, w1, b1, m, inner)), w2, b2, inner, m)
}

/// The sums of rows, normed.
pub open spec fn normed_sums(
    f: Functions,
    cfg: &MarianConfig,
    x: Rows,
    y: Rows,
    gain: Seq<Scalar>,
    bias: Seq<Scalar>,
) -> Rows {
    layer_normed_rows(
        f,
        sum_rows(x, y),
        gain,
        bias,
        cfg.d_model as int,
        Scalar::F64(0x3EE4_F8B5_88E3_68F1),
    )
}

/// The source rows after an encoder layer: each sees all of them.
pub open spec fn after_encoder_layer(
    f: Functions,
    cfg: &MarianConfig,
    w: &MarianEncoderLayerWeights,
    x: Rows,
    s: int,
) -> Rows {
    let d = cfg.d_model as int / cfg.encoder_attention_heads as int;
    let y = normed_sums(
        f,
        cfg,
        x,
        attended_rows(f, cfg, &w.self_attn, x, x, d, all_seen(), s),
        w.self_attn_ln_gain@,
        w.self_attn_ln_bias@,
    );
    normed_sums(
        f,
        cfg,
        y,
        fed_rows(f, cfg, y, w.fc1@, w.fc1_bias@, w.fc2@, w.fc2_bias@, cfg.encoder_ffn_dim as int),
        w.final_ln_gain@,
        w.final_ln_bias@,
    )
}

/// The target rows after a decoder layer: each sees itself and those before it, and
/// then all `t` encoded source rows.
pub open spec fn after_decoder_layer(
    f: Functions,
    cfg: &MarianConfig,
    w: &MarianDecoderLayerWeights,
    x: Rows,
    enc: Rows,
    s: int,
    t: int,
) -> Rows {
    let d = cfg.d_model as int / cfg.decoder_attention_heads as int;
    let y = normed_sums(
        f,
        cfg,
        x,
        attended_rows(f, cfg, &w.self_attn, x, x, d, |i: int, o: int| o > i, s),
        w.self_attn_ln_gain@,
        w.self_attn_ln_bias@,
    );
    let z = normed_sums(
        f,
        cfg,
        y,
        attended_rows(f, cfg, &w.encoder_attn, y, enc, d, all_seen(), t),
        w.encoder_attn_ln_gain@,
        w.encoder_attn_ln_bias@,
    );
    normed_sums(
        f,
        cfg,
        z,
        fed_rows(f, cfg, z, w.fc1@, w.fc1_bias@, w.fc2@, w.fc2_bias@, cfg.decoder_ffn_dim as int),
        w.final_ln_gain@,
        w.final_ln_bias@,
    )
}

/// The source rows after the first `n` encoder layers.
pub open spec fn after_encoder(
    f: Functions,
    cfg: &MarianConfig,
    layers: Seq<MarianEncoderLayerWeights>,
    n: int,
    x: Rows,
    s: int,
) -> Rows
    decreases n,
{
    if n <= 0 {
        x
    } else {
        after_encoder_layer(f, cfg, &layers[n - 1], after_encoder(f, cfg, layers, n - 1, x, s), s)
    }
}

/// The target rows after the first `n` decoder layers.
pub open spec fn after_decoder(
    f: Functions,
    cfg: &MarianConfig,
    layers: Seq<MarianDecoderLayerWeights>,
    n: int,
    x: Rows,
    enc: Rows,
    s: int,
    t: int,
) -> Rows
    decreases n,
{
    if n <= 0 {
        x
    } else {
        after_decoder_layer(
            f,
            cfg,
            &layers[n - 1],
            after_decoder(f, cfg, layers, n - 1, x, enc, s, t),
            enc,
            s,
            t,
        )
    }
}

/// Feature `c` of position `p`: sines of falling frequencies in the first half, the
/// cosines of the same in the second.
pub open spec fn position_number(f: Functions, width: int, p: int, c: int) -> real {
    let half = width / 2;
    if c < half {
        (f.sin)(p as real * (1real / (f.pow)(10000real, c as real / width as real)))
    } else {
        (f.cos)(p as real * (1real / (f.pow)(10000real, (c - half) as real / width as real)))
    }
}

/// The rows of tokens: their embeddings, scaled by the root of the width where
/// asked, plus the features of their positions.
pub open spec fn embedded_rows(f: Functions, model: &MarianModel, tokens: Seq<u32>) -> Rows {
    let m = model.config.d_model as int;
    let e = token_rows(f, model.weights.shared_embedding@, m, tokens);
    |i: int| |k: int|
        (if model.config.scale_embedding {
            e(i)(k) * (f.sqrt)(m as real)
        } else {
            e(i)(k)
        }) + position_number(f, m, i, k)
}

proof fn number_of_root(f: Functions, d: usize)
    ensures
        number(f, pow64(Scalar::Nat(Precision::Double, d), Scalar::F64(0xBFE0_0000_0000_0000))) == (f.pow)(
            d as int as real,
            -(1real / 2real),
        ),
{
    vstd::arithmetic::power2::lemma2_to64();
    vstd::arithmetic::power2::lemma2_to64_rest();
    assert(decoded(0xBFE0_0000_0000_0000, 52, 2048, 1023) == -(1real / 2real)) by {
        let unit = 0x10_0000_0000_0000int;
        assert(0xBFE0_0000_0000_0000int / unit == 3070);
        assert(0xBFE0_0000_0000_0000int % unit == 0);
        assert(3070int % 2048 == 1022 && 3070int / 2048 == 1);
        let p = unit as real;
        assert(p / (2real * p) == 1real / 2real) by (nonlinear_arith)
            requires
                p > 0real,
        ;
        assert(scaled(unit, -53) == 1real / 2real);
    }
    reveal_with_fuel(number, 4);
}

proof fn number_ten_thousand(f: Functions)
    ensures
        number(f, Scalar::F32(0x461C_4000)) == 10000real,
{
    vstd::arithmetic::power2::lemma2_to64();
    assert(decoded(0x461C_4000, 23, 256, 127) == 10000real) by {
        assert(0x461C_4000int / 0x800000 == 140 && 0x461C_4000int % 0x800000 == 0x1C4000);
        assert(vstd::arithmetic::power2::pow2(10) == 1024);
        let p = 1024int as real;
        assert(0x9C4000int as real == 10000real * p);
        assert(10000real * p / p == 10000real) by (nonlinear_arith)
            requires
                p > 0real,
        ;
        assert(scaled(0x9C4000, -10) == 10000real);
    }
}

/// The table of positions, number by number.
pub proof fn position_reads(f: Functions, n: int, width: usize, p: int, c: int)
    requires
        0 <= p < n,
        0 <= c < width,
        n * width <= usize::MAX,
    ensures
        number(f, position_table(n, width)[p * width + c]) == position_number(f, width as int, p, c),
{
    position_table_rows(n, width, p, c);
    numbers_zero_one(f);
    number_ten_thousand(f);
    assert(n <= usize::MAX) by (nonlinear_arith)
        requires
            n * width <= usize::MAX,
            width >= 1,
            n >= 0,
    ;
    reveal_with_fuel(number, 6);
}

/// The rows of tokens, number by number.
#[verifier::spinoff_prover]
pub proof fn embedded_reads(f: Functions, model: &MarianModel, tokens: Seq<u32>)
    requires
        model.config.addressable(tokens.len() as int),
        model.weights.sized(&model.config),
    ensures
        has(model.embedded(tokens), seq![1, tokens.len() as int, model.config.d_model as int]),
        holds(
            f,
            model.embedded(tokens),
            embedded_rows(f, model, tokens),
            tokens.len() as int,
            model.config.d_model as int,
        ),
{
    broadcast use {extents, readings};

    let cfg = &model.config;
    let d = cfg.d_model as int;
    let n = cfg.max_position_embeddings as int;
    let s = tokens.len() as int;
    let rows = embedded_parts(model, tokens);
    let table = position_table(n, cfg.d_model);
    let whole = Tensor::constant(table, seq![n, d]);
    products(n, d, 1, 1, 1, 1);
    assert(n * d >= 0) by (nonlinear_arith)
        requires
            n >= 0,
            d >= 0,
    ;
    constant_has(table, seq![n, d]);
    let flat = rows.reshape(seq![1, s, d]);
    let pos = flat.broadcast_to(seq![1, s, d]);
    let e = Tensor::embed_tokens(model.weights.shared_embedding@, cfg.vocab_size as int, d, tokens);
    let es = token_rows(f, model.weights.shared_embedding@, d, tokens);
    embedding_holds(f, model.weights.shared_embedding@, cfg.vocab_size as int, d, tokens);
    let scale = sqrt64(Scalar::Nat(Precision::Double, cfg.d_model));
    let x = if cfg.scale_embedding {
        e.mul_scalar(scale)
    } else {
        e
    };
    assert(number(f, scale) == (f.sqrt)(d as real)) by {
        reveal_with_fuel(number, 3);
    }
    assert forall|i: int, k: int| 0 <= i < s && 0 <= k < d implies #[trigger] at3(f, model.embedded(tokens), 0, i, k)
        == embedded_rows(f, model, tokens)(i)(k) by {
        assert(at3(f, e, 0, i, k) == es(i)(k));
        read_broadcast3(f, flat, seq![1, s, d], 0, i, k);
        assert(pick(s, i) == i && pick(d, k) == k);
        place2(i, k, s, d);
        place3(0, i, k, 1, s, d);
        assert(0 * s == 0) by (nonlinear_arith);
        read_reshape(f, rows, seq![1, s, d], seq![i, k], seq![0, i, k]);
        crate::readings::read_narrow2(f, whole, 0, s, i, k);
        position_reads(f, n, cfg.d_model, i, k);
        assert(at2(f, whole, i, k) == number(f, table[i * d + k]));
        assert(at3(f, x.add(pos), 0, i, k) == at3(f, x, 0, i, k) + at3(f, pos, 0, i, k));
    }
}

proof fn projected_holds(f: Functions, t: Tensor, x: Rows, w: Seq<Scalar>, b: Seq<Scalar>, n: int, o: int, s: int)
    requires
        has(t, seq![1, s, n]),
        holds(f, t, x, s, n),
        w.len() == n * o,
        n >= 1,
        1 <= o <= usize::MAX,
        n * o <= usize::MAX,
        b.len() == o,
    ensures
        has(projected(t, w, b, n, o), seq![1, s, o]),
        holds(f, projected(t, w, b, n, o), affine_rows(f, x, w, b, n, o), s, o),
{
    affine_holds(f, t, x, w, b, n, o, s);
    assert(seq![b.len() as int] =~= seq![o]);
}

/// Attention, number by number.
#[verifier::spinoff_prover]
pub proof fn attention_reads(
    f: Functions,
    cfg: &MarianConfig,
    w: &MarianAttentionWeights,
    qt: Tensor,
    kt: Tensor,
    x: Rows,
    y: Rows,
    heads: int,
    head_dim: usize,
    mask: Option<Tensor>,
    hidden: spec_fn(int, int) -> bool,
    s: int,
    t: int,
)
    requires
        cfg.d_model >= 1,
        cfg.d_model * cfg.d_model <= usize::MAX,
        w.sized(cfg.d_model as int),
        heads >= 1,
        heads * head_dim == cfg.d_model,
        has(qt, seq![1, s, cfg.d_model as int]),
        has(kt, seq![1, t, cfg.d_model as int]),
        holds(f, qt, x, s, cfg.d_model as int),
        holds(f, kt, y, t, cfg.d_model as int),
        mask matches Some(m) ==> s == t && has(m, seq![1, 1, s, s]) && hides(f, m, hidden, s, s),
        mask is None ==> forall|i: int, o: int| !(#[trigger] hidden(i, o)),
    ensures
        has(attention_value(cfg, w, qt, kt, heads, head_dim, mask), seq![1, s, cfg.d_model as int]),
        holds(
            f,
            attention_value(cfg, w, qt, kt, heads, head_dim, mask),
            attended_rows(f, cfg, w, x, y, head_dim as int, hidden, t),
            s,
            cfg.d_model as int,
        ),
{
    broadcast use {extents, readings};

    let m = cfg.d_model as int;
    let d = head_dim as int;
    assert(d >= 1) by (nonlinear_arith)
        requires
            heads * d == m,
            m >= 1,
            heads >= 1,
    ;
    let scale = pow64(Scalar::Nat(Precision::Double, head_dim), Scalar::F64(0xBFE0_0000_0000_0000));
    number_of_root(f, head_dim);
    let by = (f.pow)(d as real, -(1real / 2real));
    projected_holds(f, qt, x, w.q_proj@, w.q_proj_bias@, m, m, s);
    projected_holds(f, kt, y, w.k_proj@, w.k_proj_bias@, m, m, t);
    projected_holds(f, kt, y, w.v_proj@, w.v_proj_bias@, m, m, t);
    let q0 = projected(qt, w.q_proj@, w.q_proj_bias@, m, m);
    let k0 = projected(kt, w.k_proj@, w.k_proj_bias@, m, m);
    let v0 = projected(kt, w.v_proj@, w.v_proj_bias@, m, m);
    let (qr, kr, vr) = (
        affine_rows(f, x, w.q_proj@, w.q_proj_bias@, m, m),
        affine_rows(f, y, w.k_proj@, w.k_proj_bias@, m, m),
        affine_rows(f, y, w.v_proj@, w.v_proj_bias@, m, m),
    );
    let q1 = q0.mul_scalar(scale);
    let qc = each(|z: real| z * by, qr);
    assert forall|i: int, k: int| 0 <= i < s && 0 <= k < m implies #[trigger] at3(f, q1, 0, i, k) == qc(i)(k) by {
        assert(at3(f, q0, 0, i, k) == qr(i)(k));
    }
    split_holds(f, q1, qc, heads, d, s);
    split_holds(f, k0, kr, heads, d, t);
    split_holds(f, v0, vr, heads, d, t);
    let (q, k, v) = (q1.split_heads(heads, d), k0.split_heads(heads, d), v0.split_heads(heads, d));
    let (qs, ks, vs) = (heads_of(qc, d), heads_of(kr, d), heads_of(vr, d));
    let qh = heads_of(qr, d);
    let scores = q.matmul(k.transpose());
    assert(has(scores, seq![1, heads, s, t]));
    let masked = match mask {
        None => scores,
        Some(z) => scores.broadcast_add(z),
    };
    if let Some(z) = mask {
        assert(lies_under(z.dims, scores.dims));
        broadcast_add_under(scores, z);
    }
    let score = |g: int, i: int, o: int| dot(d, |z: int| qh(g, i)(z) * by, ks(g, o));
    assert forall|g: int, o: int, z: int| 0 <= g < heads && 0 <= o < t && 0 <= z < d implies #[trigger] at4(
        f,
        k,
        0,
        g,
        o,
        z,
    ) == ks(g / 1, o)(z) by {}
    assert forall|g: int, o: int, z: int| 0 <= g < heads && 0 <= o < t && 0 <= z < d implies #[trigger] at4(
        f,
        v,
        0,
        g,
        o,
        z,
    ) == vs(g / 1, o)(z) by {}
    assert forall|g: int, i: int, o: int| 0 <= g < heads && 0 <= i < s && 0 <= o < t implies #[trigger] low4(
        masked,
        0,
        g,
        i,
        o,
    ) == hidden(i, o) by {
        products_read(f, q, k, qs, ks, heads, 1, s, t, d, g, i, o);
        if let Some(z) = mask {
            assert(pick(s, i) == i && pick(s, o) == o);
            assert(low4(masked, 0, g, i, o) == low4(z, 0, 0, pick(s, i), pick(s, o)));
        }
    }
    assert forall|g: int, i: int, o: int|
        0 <= g < heads && 0 <= i < s && 0 <= o < t && !hidden(i, o) implies #[trigger] at4(f, masked, 0, g, i, o)
        == score(g, i, o) by {
        products_read(f, q, k, qs, ks, heads, 1, s, t, d, g, i, o);
        let row = |z: int| qh(g, i)(z) * by;
        assert(qs(g, i) =~= row);
        if let Some(z) = mask {
            assert(pick(s, i) == i && pick(s, o) == o);
            assert(at4(f, z, 0, 0, i, o) == 0real);
            assert(at4(f, masked, 0, g, i, o) == at4(f, scores, 0, g, i, o) + at4(f, z, 0, 0, pick(s, i), pick(s, o)));
        }
    }
    averaged_holds(f, masked, v, score, hidden, vs, heads, 1, s, t, d);
    let merged = masked.softmax_last_dim().matmul(v).merge_heads();
    let rows = averaged_rows(f, score, hidden, vs, d, 1, t);
    projected_holds(f, merged, rows, w.out_proj@, w.out_proj_bias@, m, m, s);
}

proof fn fed_holds(
    f: Functions,
    cfg: &MarianConfig,
    t: Tensor,
    x: Rows,
    w1: Seq<Scalar>,
    b1: Seq<Scalar>,
    w2: Seq<Scalar>,
    b2: Seq<Scalar>,
    inner: int,
    s: int,
)
    requires
        cfg.d_model >= 1,
        1 <= inner <= usize::MAX,
        cfg.d_model * inner <= usize::MAX,
        w1.len() == cfg.d_model * inner,
        b1.len() == inner,
        w2.len() == inner * cfg.d_model,
        b2.len() == cfg.d_model,
        has(t, seq![1, s, cfg.d_model as int]),
        holds(f, t, x, s, cfg.d_model as int),
    ensures
        has(ffn_value(cfg, t, w1, b1, w2, b2, inner), seq![1, s, cfg.d_model as int]),
        holds(
            f,
            ffn_value(cfg, t, w1, b1, w2, b2, inner),
            fed_rows(f, cfg, x, w1, b1, w2, b2, inner),
            s,
            cfg.d_model as int,
        ),
{
    broadcast use {extents, readings};

    let m = cfg.d_model as int;
    assert(inner * m == m * inner) by (nonlinear_arith);
    projected_holds(f, t, x, w1, b1, m, inner, s);
    let up = projected(t, w1, b1, m, inner);
    let ups = affine_rows(f, x, w1, b1, m, inner);
    let act = match cfg.activation_function {
        MarianActivation::Relu => up.relu(),
        MarianActivation::Silu => up.silu(),
        MarianActivation::Gelu => up.gelu_erf(),
        MarianActivation::GeluPytorchTanh => up.gelu(),
    };
    let acts = each(activation(f, cfg), ups);
    assert(has(act, seq![1, s, inner]));
    assert forall|i: int, k: int| 0 <= i < s && 0 <= k < inner implies #[trigger] at3(f, act, 0, i, k) == acts(i)(
        k,
    ) by {
        assert(at3(f, up, 0, i, k) == ups(i)(k));
    }
    projected_holds(f, act, acts, w2, b2, inner, m, s);
}

proof fn post_norm_holds(
    f: Functions,
    cfg: &MarianConfig,
    t: Tensor,
    u: Tensor,
    x: Rows,
    y: Rows,
    gain: Seq<Scalar>,
    bias: Seq<Scalar>,
    s: int,
)
    requires
        cfg.d_model >= 1,
        has(t, seq![1, s, cfg.d_model as int]),
        has(u, seq![1, s, cfg.d_model as int]),
        holds(f, t, x, s, cfg.d_model as int),
        holds(f, u, y, s, cfg.d_model as int),
        gain.len() == cfg.d_model,
        bias.len() == cfg.d_model,
    ensures
        has(post_norm(t, u, gain, bias), seq![1, s, cfg.d_model as int]),
        holds(f, post_norm(t, u, gain, bias), normed_sums(f, cfg, x, y, gain, bias), s, cfg.d_model as int),
{
    let m = cfg.d_model as int;
    sum_holds(f, t, u, x, y, s, m);
    layer_norm_holds(f, t.add(u), sum_rows(x, y), gain, bias, m, Scalar::F64(0x3EE4_F8B5_88E3_68F1), s);
}

/// An encoder layer, number by number.
pub proof fn encoder_layer_reads(
    f: Functions,
    cfg: &MarianConfig,
    w: &MarianEncoderLayerWeights,
    t: Tensor,
    x: Rows,
    s: int,
)
    requires
        cfg.addressable(s),
        w.sized(cfg),
        has(t, seq![1, s, cfg.d_model as int]),
        holds(f, t, x, s, cfg.d_model as int),
    ensures
        has(encoder_layer(cfg, w, t), seq![1, s, cfg.d_model as int]),
        holds(f, encoder_layer(cfg, w, t), after_encoder_layer(f, cfg, w, x, s), s, cfg.d_model as int),
{
    let m = cfg.d_model as int;
    let heads = cfg.encoder_attention_heads;
    let d = (cfg.d_model / heads) as usize;
    heads_fill(m, heads as int);
    attention_reads(f, cfg, &w.self_attn, t, t, x, x, heads as int, d, None, all_seen(), s, s);
    let at = attended_rows(f, cfg, &w.self_attn, x, x, d as int, all_seen(), s);
    let attn = attention_value(cfg, &w.self_attn, t, t, heads as int, d, None);
    post_norm_holds(f, cfg, t, attn, x, at, w.self_attn_ln_gain@, w.self_attn_ln_bias@, s);
    let h1 = post_norm(t, attn, w.self_attn_ln_gain@, w.self_attn_ln_bias@);
    let y = normed_sums(f, cfg, x, at, w.self_attn_ln_gain@, w.self_attn_ln_bias@);
    let inner = cfg.encoder_ffn_dim as int;
    fed_holds(f, cfg, h1, y, w.fc1@, w.fc1_bias@, w.fc2@, w.fc2_bias@, inner, s);
    post_norm_holds(
        f,
        cfg,
        h1,
        ffn_value(cfg, h1, w.fc1@, w.fc1_bias@, w.fc2@, w.fc2_bias@, inner),
        y,
        fed_rows(f, cfg, y, w.fc1@, w.fc1_bias@, w.fc2@, w.fc2_bias@, inner),
        w.final_ln_gain@,
        w.final_ln_bias@,
        s,
    );
}

/// A decoder layer, number by number.
pub proof fn decoder_layer_reads(
    f: Functions,
    cfg: &MarianConfig,
    w: &MarianDecoderLayerWeights,
    t: Tensor,
    enc: Tensor,
    x: Rows,
    e: Rows,
    s: int,
    u: int,
)
    requires
        cfg.addressable(s),
        w.sized(cfg),
        has(t, seq![1, s, cfg.d_model as int]),
        has(enc, seq![1, u, cfg.d_model as int]),
        holds(f, t, x, s, cfg.d_model as int),
        holds(f, enc, e, u, cfg.d_model as int),
    ensures
        has(decoder_layer(cfg, w, t, enc, causal_tensor(s)), seq![1, s, cfg.d_model as int]),
        holds(
            f,
            decoder_layer(cfg, w, t, enc, causal_tensor(s)),
            after_decoder_layer(f, cfg, w, x, e, s, u),
            s,
            cfg.d_model as int,
        ),
{
    let m = cfg.d_model as int;
    let heads = cfg.decoder_attention_heads;
    let d = (cfg.d_model / heads) as usize;
    heads_fill(m, heads as int);
    let mask = causal_tensor(s);
    let later = |i: int, o: int| o > i;
    causal_hides(f, s);
    attention_reads(f, cfg, &w.self_attn, t, t, x, x, heads as int, d, Some(mask), later, s, s);
    let own = attended_rows(f, cfg, &w.self_attn, x, x, d as int, later, s);
    let attn = attention_value(cfg, &w.self_attn, t, t, heads as int, d, Some(mask));
    post_norm_holds(f, cfg, t, attn, x, own, w.self_attn_ln_gain@, w.self_attn_ln_bias@, s);
    let h1 = post_norm(t, attn, w.self_attn_ln_gain@, w.self_attn_ln_bias@);
    let y = normed_sums(f, cfg, x, own, w.self_attn_ln_gain@, w.self_attn_ln_bias@);
    attention_reads(f, cfg, &w.encoder_attn, h1, enc, y, e, heads as int, d, None, all_seen(), s, u);
    let cross = attended_rows(f, cfg, &w.encoder_attn, y, e, d as int, all_seen(), u);
    let attn2 = attention_value(cfg, &w.encoder_attn, h1, enc, heads as int, d, None);
    post_norm_holds(f, cfg, h1, attn2, y, cross, w.encoder_attn_ln_gain@, w.encoder_attn_ln_bias@, s);
    let h2 = post_norm(h1, attn2, w.encoder_attn_ln_gain@, w.encoder_attn_ln_bias@);
    let z = normed_sums(f, cfg, y, cross, w.encoder_attn_ln_gain@, w.encoder_attn_ln_bias@);
    let inner = cfg.decoder_ffn_dim as int;
    fed_holds(f, cfg, h2, z, w.fc1@, w.fc1_bias@, w.fc2@, w.fc2_bias@, inner, s);
    post_norm_holds(
        f,
        cfg,
        h2,
        ffn_value(cfg, h2, w.fc1@, w.fc1_bias@, w.fc2@, w.fc2_bias@, inner),
        z,
        fed_rows(f, cfg, z, w.fc1@, w.fc1_bias@, w.fc2@, w.fc2_bias@, inner),
        w.final_ln_gain@,
        w.final_ln_bias@,
        s,
    );
}

/// The mask over what comes later, given by its numbers.
pub proof fn causal_hides(f: Functions, s: int)
    requires
        s >= 1,
        s * s <= usize::MAX,
    ensures
        has(causal_tensor(s), seq![1, 1, s, s]),
        hides(f, causal_tensor(s), |i: int, o: int| o > i, s, s),
{
    let later = |i: int, o: int| o > i;
    assert forall|i: int, o: int| 0 <= i < s && 0 <= o < s implies causal_data(s)[i * s + o]
        == crate::common::mask_value(#[trigger] later(i, o)) by {
        causal_mask_rows(s, i, o);
    }
    assert(s * s >= 0) by (nonlinear_arith);
    mask_data_hides(f, causal_data(s), later, s);
}

/// The encoder output, number by number.
pub proof fn encoder_reads(
    f: Functions,
    cfg: &MarianConfig,
    layers: Seq<MarianEncoderLayerWeights>,
    n: int,
    t: Tensor,
    x: Rows,
    s: int,
)
    requires
        cfg.addressable(s),
        0 <= n <= layers.len(),
        forall|i: int| 0 <= i < layers.len() ==> (#[trigger] layers[i]).sized(cfg),
        has(t, seq![1, s, cfg.d_model as int]),
        holds(f, t, x, s, cfg.d_model as int),
    ensures
        has(encoder_layers(cfg, layers, n, t), seq![1, s, cfg.d_model as int]),
        holds(f, encoder_layers(cfg, layers, n, t), after_encoder(f, cfg, layers, n, x, s), s, cfg.d_model as int),
    decreases n,
{
    if n > 0 {
        encoder_reads(f, cfg, layers, n - 1, t, x, s);
        encoder_layer_reads(
            f,
            cfg,
            &layers[n - 1],
            encoder_layers(cfg, layers, n - 1, t),
            after_encoder(f, cfg, layers, n - 1, x, s),
            s,
        );
    }
}

/// The decoder states, number by number.
pub proof fn decoder_reads(
    f: Functions,
    cfg: &MarianConfig,
    layers: Seq<MarianDecoderLayerWeights>,
    n: int,
    t: Tensor,
    enc: Tensor,
    x: Rows,
    e: Rows,
    s: int,
    u: int,
)
    requires
        cfg.addressable(s),
        0 <= n <= layers.len(),
        forall|i: int| 0 <= i < layers.len() ==> (#[trigger] layers[i]).sized(cfg),
        has(t, seq![1, s, cfg.d_model as int]),
        has(enc, seq![1, u, cfg.d_model as int]),
        holds(f, t, x, s, cfg.d_model as int),
        holds(f, enc, e, u, cfg.d_model as int),
    ensures
        has(decoder_layers(cfg, layers, n, t, enc, causal_tensor(s)), seq![1, s, cfg.d_model as int]),
        holds(
            f,
            decoder_layers(cfg, layers, n, t, enc, causal_tensor(s)),
            after_decoder(f, cfg, layers, n, x, e, s, u),
            s,
            cfg.d_model as int,
        ),
    decreases n,
{
    if n > 0 {
        decoder_reads(f, cfg, layers, n - 1, t, enc, x, e, s, u);
        decoder_layer_reads(
            f,
            cfg,
            &layers[n - 1],
            decoder_layers(cfg, layers, n - 1, t, enc, causal_tensor(s)),
            enc,
            after_decoder(f, cfg, layers, n - 1, x, e, s, u),
            e,
            s,
            u,
        );
    }
}

/// The logits of a translation, number by number: the target rows are decoded
/// against the encoded source rows, and the logit of a word is the product of the
/// state with its embedding, plus a bias.
pub proof fn logits_read(f: Functions, model: &MarianModel, src: Seq<u32>, tgt: Seq<u32>)
    requires
        model.config.addressable(src.len() as int),
        model.config.addressable(tgt.len() as int),
        model.weights.sized(&model.config),
    ensures
        ({
            let cfg = &model.config;
            let w = &model.weights;
            let m = cfg.d_model as int;
            let (u, s) = (src.len() as int, tgt.len() as int);
            let e = after_encoder(
                f,
                cfg,
                w.encoder_layers@,
                w.encoder_layers@.len() as int,
                embedded_rows(f, model, src),
                u,
            );
            let y = after_decoder(
                f,
                cfg,
                w.decoder_layers@,
                w.decoder_layers@.len() as int,
                embedded_rows(f, model, tgt),
                e,
                s,
                u,
            );
            holds(
                f,
                model.logits(src, tgt),
                |i: int| |j: int|
                    dot(m, y(i), |k: int| number(f, w.shared_embedding@[j * m + k])) + number(
                        f,
                        w.final_logits_bias@[j],
                    ),
                s,
                cfg.vocab_size as int,
            )
        }),
{
    let cfg = &model.config;
    let w = &model.weights;
    let m = cfg.d_model as int;
    let v = cfg.vocab_size as int;
    let (u, s) = (src.len() as int, tgt.len() as int);
    embedded_reads(f, model, src);
    embedded_reads(f, model, tgt);
    let (xs, xt) = (embedded_rows(f, model, src), embedded_rows(f, model, tgt));
    encoder_reads(f, cfg, w.encoder_layers@, w.encoder_layers@.len() as int, model.embedded(src), xs, u);
    let e = after_encoder(f, cfg, w.encoder_layers@, w.encoder_layers@.len() as int, xs, u);
    let enc = model.encoded(src);
    let last = w.decoder_layers@.len() as int;
    decoder_reads(f, cfg, w.decoder_layers@, last, model.embedded(tgt), enc, xt, e, s, u);
    let y = after_decoder(f, cfg, w.decoder_layers@, last, xt, e, s, u);
    let t = decoder_layers(cfg, w.decoder_layers@, last, model.embedded(tgt), enc, causal_tensor(s));
    assert(v * m == m * v && v * m >= 0) by (nonlinear_arith)
        requires
            v >= 0,
            m >= 0,
    ;
    let head = tied_head(w.shared_embedding@, v, m);
    affine_holds(f, t, y, head, w.final_logits_bias@, m, v, s);
    let want = |i: int| |j: int|
        dot(m, y(i), |k: int| number(f, w.shared_embedding@[j * m + k])) + number(f, w.final_logits_bias@[j]);
    let got = affine_rows(f, y, head, w.final_logits_bias@, m, v);
    assert forall|i: int, j: int| 0 <= i < s && 0 <= j < v implies #[trigger] at3(f, model.logits(src, tgt), 0, i, j)
        == want(i)(j) by {
        crate::rows_read::tied_head_reads(f, y(i), w.shared_embedding@, v, m, j);
        assert(at3(f, model.logits(src, tgt), 0, i, j) == got(i)(j));
    }
}

} // verus!
