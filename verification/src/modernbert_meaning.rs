//! What ModernBERT computes, number by number.

use crate::extents::{broadcast_add_under, constant_has, extents, has, lies_under, products};
use crate::formulas::{
    head_of, headed, layer_norm_reads, mixed_with, mixed_with_reads, norms_alike, tokens_of,
    turned_heads, Heads, Rows,
};
use crate::lazy::Tensor;
use crate::lazy_modernbert::{
    attention_value, geglu_value, layer_value, local_data, local_mask_has, local_mask_rows, normed,
    states_succeed, ModernBertConfig, ModernBertLayerWeights, ModernBertModel,
};
use crate::meaning::{angle, at2, at3, at4, low4, lows, number, row3, row4, standard, sum, Functions, Row};
use crate::readings::{
    low_sum, mapped, mapped_alike, number_of_scale, numbers_zero_one, pick, place2, place4, read_constant,
    read_embedding, read_reshape, readings, row2, sums_alike, turned,
};
use crate::scalar::{filled, inv_sqrt64, zero, Scalar};
use vstd::prelude::*;

verus! {

/// Feature `j` of a row with mean zero and variance one, scaled.
pub open spec fn normed_row(f: Functions, x: Row, gain: Seq<Scalar>, n: int, eps: Scalar, j: int) -> real {
    standard(f, x, n, number(f, eps), j) * number(f, gain[j])
}

/// A norm without bias, number by number.
proof fn normed_reads(f: Functions, t: Tensor, gain: Seq<Scalar>, n: int, eps: Scalar, s: int, i: int, j: int)
    requires
        has(t, seq![1, s, n]),
        gain.len() == n,
        1 <= n <= usize::MAX,
        0 <= i < s,
        0 <= j < n,
    ensures
        at3(f, normed(t, gain, n, eps), 0, i, j) == normed_row(f, row3(f, t, 0, i), gain, n, eps, j),
{
    layer_norm_reads(f, t, gain, filled(zero(), n), n, eps, 0, i, j);
    numbers_zero_one(f);
}

/// Feature `m` of the gated features: the Gaussian unit of feature `m` of the first
/// half of `x . wi`, times the same feature of the second half.
pub open spec fn gated_feature(f: Functions, cfg: &ModernBertConfig, w: &ModernBertLayerWeights, x: Row, m: int) -> real {
    let h = cfg.hidden_size as int;
    let i = cfg.intermediate_size as int;
    (f.gelu_erf)(mapped(f, x, w.mlp_wi@, h, 2 * i, m)) * mapped(f, x, w.mlp_wi@, h, 2 * i, i + m)
}

/// Feature `j` of the feed-forward part of a row.
pub open spec fn fed(f: Functions, cfg: &ModernBertConfig, w: &ModernBertLayerWeights, x: Row, j: int) -> real {
    mapped(
        f,
        |m: int| gated_feature(f, cfg, w, x, m),
        w.mlp_wo@,
        cfg.intermediate_size as int,
        cfg.hidden_size as int,
        j,
    )
}

/// The feed-forward part, feature by feature: `wo` reads the Gaussian unit of the
/// first half of `x . wi` times its second half.
pub proof fn geglu_reads(
    f: Functions,
    cfg: &ModernBertConfig,
    w: &ModernBertLayerWeights,
    x: Tensor,
    s: int,
    p: int,
    j: int,
)
    requires
        cfg.addressable(s),
        w.sized(cfg),
        has(x, seq![1, s, cfg.hidden_size as int]),
        0 <= p < s,
        0 <= j < cfg.hidden_size,
    ensures
        at3(f, geglu_value(cfg, w, x), 0, p, j) == fed(f, cfg, w, row3(f, x, 0, p), j),
        has(geglu_value(cfg, w, x), seq![1, s, cfg.hidden_size as int]),
{
    broadcast use {extents, readings};

    let h = cfg.hidden_size as int;
    let i = cfg.intermediate_size as int;
    assert(i * h <= h * (2 * i)) by (nonlinear_arith)
        requires
            h >= 1,
            i >= 1,
    ;
    let up = x.linear(w.mlp_wi@, h, 2 * i);
    let (a, b) = (up.narrow(2, 0, i), up.narrow(2, i, i));
    assert(a.dims =~= seq![1, s, i]);
    assert(b.dims =~= seq![1, s, i]);
    let y = a.gelu_erf().mul(b);
    let r = row3(f, x, 0, p);
    let want = |m: int| gated_feature(f, cfg, w, r, m);
    assert forall|m: int| 0 <= m < i implies #[trigger] row3(f, y, 0, p)(m) == want(m) by {
        assert(at3(f, y, 0, p, m) == at3(f, a.gelu_erf(), 0, p, m) * at3(f, b, 0, p, m));
        assert(at3(f, a.gelu_erf(), 0, p, m) == (f.gelu_erf)(at3(f, a, 0, p, m)));
        assert(at3(f, a, 0, p, m) == at3(f, up, 0, p, m + 0));
        assert(at3(f, b, 0, p, m) == at3(f, up, 0, p, m + i));
    }
    mapped_alike(f, row3(f, y, 0, p), want, w.mlp_wo@, i, h, j);
}

/// The feed-forward part is linear in the second half of the columns of `wi`: where
/// all of these are `c` times as large, so is every feature.
pub proof fn geglu_is_linear_in_its_values(
    f: Functions,
    cfg: &ModernBertConfig,
    w: &ModernBertLayerWeights,
    u: &ModernBertLayerWeights,
    x: Tensor,
    s: int,
    p: int,
    j: int,
    c: real,
)
    requires
        cfg.addressable(s),
        w.sized(cfg),
        u.sized(cfg),
        u.mlp_wo@ == w.mlp_wo@,
        forall|k: int, m: int|
            0 <= k < cfg.hidden_size && 0 <= m < cfg.intermediate_size
                ==> #[trigger] number(f, u.mlp_wi@[k * (2 * cfg.intermediate_size) + m]) == number(
                f,
                w.mlp_wi@[k * (2 * cfg.intermediate_size) + m],
            ),
        forall|k: int, m: int|
            0 <= k < cfg.hidden_size && cfg.intermediate_size <= m < 2 * cfg.intermediate_size
                ==> #[trigger] number(f, u.mlp_wi@[k * (2 * cfg.intermediate_size) + m]) == c * number(
                f,
                w.mlp_wi@[k * (2 * cfg.intermediate_size) + m],
            ),
        has(x, seq![1, s, cfg.hidden_size as int]),
        0 <= p < s,
        0 <= j < cfg.hidden_size,
    ensures
        at3(f, geglu_value(cfg, u, x), 0, p, j) == c * at3(f, geglu_value(cfg, w, x), 0, p, j),
{
    let h = cfg.hidden_size as int;
    let i = cfg.intermediate_size as int;
    geglu_reads(f, cfg, w, x, s, p, j);
    geglu_reads(f, cfg, u, x, s, p, j);
    let r = row3(f, x, 0, p);
    let a = |m: int| gated_feature(f, cfg, u, r, m);
    let b = |m: int| gated_feature(f, cfg, w, r, m);
    assert forall|m: int| 0 <= m < i implies #[trigger] a(m) == c * b(m) by {
        let (ga, gb) = (
            |k: int| r(k) * number(f, u.mlp_wi@[k * (2 * i) + m]),
            |k: int| r(k) * number(f, w.mlp_wi@[k * (2 * i) + m]),
        );
        sums_alike(h, ga, gb);
        let (va, vb) = (
            |k: int| r(k) * number(f, u.mlp_wi@[k * (2 * i) + (i + m)]),
            |k: int| r(k) * number(f, w.mlp_wi@[k * (2 * i) + (i + m)]),
        );
        assert forall|k: int| 0 <= k < h implies #[trigger] va(k) == c * vb(k) by {
            let (n1, n2) = (number(f, u.mlp_wi@[k * (2 * i) + (i + m)]), number(f, w.mlp_wi@[k * (2 * i) + (i + m)]));
            assert(n1 == c * n2);
            assert(r(k) * (c * n2) == c * (r(k) * n2)) by (nonlinear_arith);
        }
        sum_scales(h, va, vb, c);
        let g = (f.gelu_erf)(sum(h, gb));
        let v = sum(h, vb);
        assert(g * (c * v) == c * (g * v)) by (nonlinear_arith);
        assert(mapped(f, r, u.mlp_wi@, h, 2 * i, m) == sum(h, ga));
        assert(mapped(f, r, w.mlp_wi@, h, 2 * i, m) == sum(h, gb));
        assert(mapped(f, r, u.mlp_wi@, h, 2 * i, i + m) == sum(h, va));
        assert(mapped(f, r, w.mlp_wi@, h, 2 * i, i + m) == sum(h, vb));
    }
    let x1 = |m: int| a(m) * number(f, u.mlp_wo@[m * h + j]);
    let x2 = |m: int| b(m) * number(f, w.mlp_wo@[m * h + j]);
    assert forall|m: int| 0 <= m < i implies #[trigger] x1(m) == c * x2(m) by {
        let n = number(f, w.mlp_wo@[m * h + j]);
        assert(a(m) == c * b(m));
        assert((c * b(m)) * n == c * (b(m) * n)) by (nonlinear_arith);
    }
    sum_scales(i, x1, x2, c);
}

/// A sum of multiples is the multiple of the sum.
pub proof fn sum_scales(n: int, g: Row, h: Row, c: real)
    requires
        forall|k: int| 0 <= k < n ==> #[trigger] g(k) == c * h(k),
    ensures
        sum(n, g) == c * sum(n, h),
    decreases n,
{
    if n > 0 {
        sum_scales(n - 1, g, h, c);
        assert(g(n - 1) == c * h(n - 1));
        let (a, b) = (sum(n - 1, h), h(n - 1));
        assert(c * a + c * b == c * (a + b)) by (nonlinear_arith);
    } else {
        assert(c * 0real == 0real) by (nonlinear_arith);
    }
}

/// Third `part` of the projected rows, by heads.
pub open spec fn third(f: Functions, w: Seq<Scalar>, x: Rows, h: int, d: int, part: int) -> Heads {
    |g: int, i: int| headed(|j: int| mapped(f, x(i), w, h, 3 * h, part * h + j), g, d)
}

/// The cosines and sines of the positions.
pub open spec fn cosines(f: Functions, theta: Scalar, d: int) -> Rows {
    |p: int| |k: int| (f.cos)(angle(f, theta, p, d, k))
}

pub open spec fn sines(f: Functions, theta: Scalar, d: int) -> Rows {
    |p: int| |k: int| (f.sin)(angle(f, theta, p, d, k))
}

/// The number that a mask adds to the score of position `o` for position `i`.
pub open spec fn mask_number(f: Functions, mask: Option<Tensor>, i: int, o: int) -> real {
    match mask {
        None => 0real,
        Some(m) => at4(f, m, 0, 0, i, o),
    }
}

/// Whether a mask hides position `o` from position `i`.
pub open spec fn mask_hides(mask: Option<Tensor>, i: int, o: int) -> bool {
    mask matches Some(m) && low4(m, 0, 0, i, o)
}

/// Feature `j` of what position `i` gets from attention over the rows `x`: the
/// values of all positions that are not hidden, averaged under its own query.
pub open spec fn attention_row(
    f: Functions,
    cfg: &ModernBertConfig,
    w: &ModernBertLayerWeights,
    x: Rows,
    theta: Scalar,
    bias: spec_fn(int, int) -> real,
    hidden: spec_fn(int) -> bool,
    s: int,
    i: int,
    j: int,
) -> real {
    let h = cfg.hidden_size as int;
    let d = cfg.width();
    let q = turned_heads(third(f, w.wqkv@, x, h, d, 0), cosines(f, theta, d), sines(f, theta, d), d);
    let k = turned_heads(third(f, w.wqkv@, x, h, d, 1), cosines(f, theta, d), sines(f, theta, d), d);
    let v = third(f, w.wqkv@, x, h, d, 2);
    mapped(
        f,
        |c: int| mixed_with(f, q, k, v, d, 1, s, 1real / (f.sqrt)(d as real), bias, hidden, i, c),
        w.wo@,
        h,
        h,
        j,
    )
}

/// Projected thirds, number by number.
proof fn thirds_read(
    f: Functions,
    cfg: &ModernBertConfig,
    w: &ModernBertLayerWeights,
    n: Tensor,
    xs: Rows,
    theta: Scalar,
    part: int,
    s: int,
    g: int,
    i: int,
    k: int,
)
    requires
        cfg.addressable(s),
        w.sized(cfg),
        has(n, seq![1, s, cfg.hidden_size as int]),
        0 <= part < 3,
        0 <= g < cfg.num_attention_heads,
        0 <= i < s,
        0 <= k < cfg.width(),
        forall|m: int| 0 <= m < cfg.hidden_size ==> #[trigger] at3(f, n, 0, i, m) == xs(i)(m),
    ensures
        ({
            let h = cfg.hidden_size as int;
            let heads = cfg.num_attention_heads as int;
            let d = cfg.width();
            let z = n.linear(w.wqkv@, h, 3 * h).narrow(2, part * h, h).split_heads(heads, d);
            let r = z.rope_with_tables(
                Tensor::rope_cos(theta, 0, s, d),
                Tensor::rope_sin(theta, 0, s, d),
            );
            let t = third(f, w.wqkv@, xs, h, d, part);
            &&& has(z, seq![1, heads, s, d])
            &&& has(r, seq![1, heads, s, d])
            &&& at4(f, z, 0, g, i, k) == t(g, i)(k)
            &&& at4(f, r, 0, g, i, k) == turned_heads(t, cosines(f, theta, d), sines(f, theta, d), d)(g, i)(k)
        }),
{
    broadcast use {extents, readings};

    let h = cfg.hidden_size as int;
    let heads = cfg.num_attention_heads as int;
    let d = cfg.width();
    assert(part * h + h <= 3 * h) by (nonlinear_arith)
        requires
            0 <= part < 3,
            h >= 0,
    ;
    let y = n.linear(w.wqkv@, h, 3 * h);
    let p = y.narrow(2, part * h, h);
    assert(p.dims =~= seq![1, s, h]);
    let z = p.split_heads(heads, d);
    let t = third(f, w.wqkv@, xs, h, d, part);
    assert forall|b: int| #[trigger] at4(f, z, 0, g, i, b) == t(g, i)(b) by {
        assert(at4(f, z, 0, g, i, b) == at3(f, p, 0, i, g * d + b));
        assert(at3(f, p, 0, i, g * d + b) == at3(f, y, 0, i, g * d + b + part * h));
        assert forall|e: int| 0 <= e < h implies #[trigger] row3(f, n, 0, i)(e) == xs(i)(e) by {
            assert(at3(f, n, 0, i, e) == xs(i)(e));
        }
        mapped_alike(f, row3(f, n, 0, i), xs(i), w.wqkv@, h, 3 * h, part * h + (g * d + b));
    }
    let half = d / 2;
    let cos = Tensor::rope_cos(theta, 0, s, d);
    let sin = Tensor::rope_sin(theta, 0, s, d);
    assert(at4(f, z, 0, g, i, k) == t(g, i)(k));
    assert(at4(f, z, 0, g, i, k + half) == t(g, i)(k + half));
    assert(at4(f, z, 0, g, i, k - half) == t(g, i)(k - half));
    assert(at2(f, cos, i, k) == (f.cos)(angle(f, theta, 0 + i, d, k)));
    assert(at2(f, sin, i, k) == (f.sin)(angle(f, theta, 0 + i, d, k)));
    let r = z.rope_with_tables(cos, sin);
    assert(at4(f, r, 0, g, i, k) == turned(row4(f, z, 0, g, i), row2(f, cos, i), row2(f, sin, i), half, k));
}

/// Attention, number by number.
#[verifier::spinoff_prover]
pub proof fn attention_reads(
    f: Functions,
    cfg: &ModernBertConfig,
    w: &ModernBertLayerWeights,
    n: Tensor,
    xs: Rows,
    theta: Scalar,
    mask: Option<Tensor>,
    s: int,
    i: int,
    j: int,
)
    requires
        cfg.addressable(s),
        w.sized(cfg),
        has(n, seq![1, s, cfg.hidden_size as int]),
        mask matches Some(m) ==> has(m, seq![1, 1, s, s]),
        0 <= i < s,
        0 <= j < cfg.hidden_size,
        forall|p: int, m: int|
            0 <= p < s && 0 <= m < cfg.hidden_size ==> #[trigger] at3(f, n, 0, p, m) == xs(p)(m),
    ensures
        ({
            let d = cfg.width();
            let a = attention_value(
                cfg,
                w,
                n,
                Tensor::rope_cos(theta, 0, s, d),
                Tensor::rope_sin(theta, 0, s, d),
                mask,
            );
            &&& has(a, seq![1, s, cfg.hidden_size as int])
            &&& at3(f, a, 0, i, j) == attention_row(
                f,
                cfg,
                w,
                xs,
                theta,
                |g: int, o: int| mask_number(f, mask, i, o),
                |o: int| mask_hides(mask, i, o),
                s,
                i,
                j,
            )
        }),
{
    broadcast use {extents, readings};

    let h = cfg.hidden_size as int;
    let heads = cfg.num_attention_heads as int;
    let d = cfg.width();
    assert(d >= 1) by (nonlinear_arith)
        requires
            heads * d == h,
            h >= 1,
            heads >= 1,
    ;
    assert(h * h <= h * (3 * h)) by (nonlinear_arith)
        requires
            h >= 1,
    ;
    let (cos, sin) = (Tensor::rope_cos(theta, 0, s, d), Tensor::rope_sin(theta, 0, s, d));
    let (cs, ss) = (cosines(f, theta, d), sines(f, theta, d));
    let y = n.linear(w.wqkv@, h, 3 * h);
    let q = y.narrow(2, 0, h).split_heads(heads, d).rope_with_tables(cos, sin);
    let k = y.narrow(2, h, h).split_heads(heads, d).rope_with_tables(cos, sin);
    let v = y.narrow(2, 2 * h, h).split_heads(heads, d);
    let qs = turned_heads(third(f, w.wqkv@, xs, h, d, 0), cs, ss, d);
    let ks = turned_heads(third(f, w.wqkv@, xs, h, d, 1), cs, ss, d);
    let vs = third(f, w.wqkv@, xs, h, d, 2);
    assert(0 * h == 0 && 1 * h == h) by (nonlinear_arith);
    thirds_read(f, cfg, w, n, xs, theta, 0, s, 0, i, 0);
    thirds_read(f, cfg, w, n, xs, theta, 1, s, 0, i, 0);
    thirds_read(f, cfg, w, n, xs, theta, 2, s, 0, i, 0);
    assert forall|g: int, o: int, m: int| 0 <= g < heads && 0 <= o < s && 0 <= m < d implies #[trigger] at4(
        f,
        q,
        0,
        g,
        o,
        m,
    ) == qs(g, o)(m) by {
        thirds_read(f, cfg, w, n, xs, theta, 0, s, g, o, m);
    }
    assert forall|g: int, o: int, m: int| 0 <= g < heads && 0 <= o < s && 0 <= m < d implies #[trigger] at4(
        f,
        k,
        0,
        g,
        o,
        m,
    ) == ks(g / 1, o)(m) by {
        assert(g / 1 == g);
        thirds_read(f, cfg, w, n, xs, theta, 1, s, g, o, m);
    }
    assert forall|g: int, o: int, m: int| 0 <= g < heads && 0 <= o < s && 0 <= m < d implies #[trigger] at4(
        f,
        v,
        0,
        g,
        o,
        m,
    ) == vs(g / 1, o)(m) by {
        assert(g / 1 == g);
        thirds_read(f, cfg, w, n, xs, theta, 2, s, g, o, m);
    }
    let scale = inv_sqrt64(d as usize);
    number_of_scale(f, d as usize);
    let scores = q.matmul(k.transpose()).mul_scalar(scale);
    let masked = match mask {
        None => scores,
        Some(m) => scores.broadcast_add(m),
    };
    let bias = |g: int, o: int| mask_number(f, mask, i, o);
    let hidden = |o: int| mask_hides(mask, i, o);
    if let Some(m) = mask {
        assert(lies_under(m.dims, scores.dims));
        broadcast_add_under(scores, m);
    }
    assert(has(masked, seq![1, heads, s, s]));
    assert forall|g: int, o: int| 0 <= g < heads && 0 <= o < s implies #[trigger] low4(masked, 0, g, i, o)
        == hidden(o) by {
        if let Some(m) = mask {
            assert forall|z: Seq<int>| !(#[trigger] lows(scores)(z)) by {}
            assert(pick(s, i) == i && pick(s, o) == o);
            assert(low4(masked, 0, g, i, o) == low4(m, 0, 0, pick(s, i), pick(s, o)));
        }
    }
    assert forall|g: int, o: int| 0 <= g < heads && 0 <= o < s && !hidden(o) implies #[trigger] at4(
        f,
        masked,
        0,
        g,
        i,
        o,
    ) == at4(f, scores, 0, g, i, o) + bias(g, o) by {
        if let Some(m) = mask {
            assert(pick(s, i) == i && pick(s, o) == o);
            assert(at4(f, masked, 0, g, i, o) == at4(f, scores, 0, g, i, o) + at4(
                f,
                m,
                0,
                0,
                pick(s, i),
                pick(s, o),
            ));
        }
    }
    let ctx = masked.softmax_last_dim().matmul(v);
    let merged = ctx.merge_heads();
    let scl = 1real / (f.sqrt)(d as real);
    let want = |c: int| mixed_with(f, qs, ks, vs, d, 1, s, scl, bias, hidden, i, c);
    assert forall|c: int| 0 <= c < h implies #[trigger] row3(f, merged, 0, i)(c) == want(c) by {
        head_of(c, heads, d);
        mixed_with_reads(f, q, k, v, masked, qs, ks, vs, scale, bias, hidden, heads, 1, s, s, d, i, c);
        assert(at3(f, merged, 0, i, c) == at4(f, ctx, 0, c / d, i, c % d));
    }
    mapped_alike(f, row3(f, merged, 0, i), want, w.wo@, h, h, j);
}

/// The rows that the attention of a layer reads: the first layer reads rows that
/// are normed already.
pub open spec fn attention_input(f: Functions, cfg: &ModernBertConfig, w: &ModernBertLayerWeights, x: Rows) -> Rows {
    match w.attn_norm_gain {
        None => x,
        Some(g) => |p: int|
            |k: int| normed_row(f, x(p), g@, cfg.hidden_size as int, cfg.layer_norm_eps, k),
    }
}

/// Feature `j` of position `i` after a layer over the rows `x`.
pub open spec fn after_layer(
    f: Functions,
    cfg: &ModernBertConfig,
    w: &ModernBertLayerWeights,
    x: Rows,
    theta: Scalar,
    bias: spec_fn(int, int) -> real,
    hidden: spec_fn(int) -> bool,
    s: int,
    i: int,
    j: int,
) -> real {
    let y = |k: int|
        x(i)(k) + attention_row(
            f,
            cfg,
            w,
            attention_input(f, cfg, w, x),
            theta,
            bias,
            hidden,
            s,
            i,
            k,
        );
    y(j) + fed(
        f,
        cfg,
        w,
        |k: int| normed_row(f, y, w.mlp_norm_gain@, cfg.hidden_size as int, cfg.layer_norm_eps, k),
        j,
    )
}

/// A layer, number by number.
#[verifier::spinoff_prover]
pub proof fn layer_reads(
    f: Functions,
    cfg: &ModernBertConfig,
    w: &ModernBertLayerWeights,
    x: Tensor,
    theta: Scalar,
    mask: Option<Tensor>,
    s: int,
    i: int,
    j: int,
)
    requires
        cfg.addressable(s),
        w.sized(cfg),
        has(x, seq![1, s, cfg.hidden_size as int]),
        mask matches Some(m) ==> has(m, seq![1, 1, s, s]),
        0 <= i < s,
        0 <= j < cfg.hidden_size,
    ensures
        at3(
            f,
            layer_value(
                cfg,
                w,
                x,
                Tensor::rope_cos(theta, 0, s, cfg.width()),
                Tensor::rope_sin(theta, 0, s, cfg.width()),
                mask,
            ),
            0,
            i,
            j,
        ) == after_layer(
            f,
            cfg,
            w,
            tokens_of(f, x),
            theta,
            |g: int, o: int| mask_number(f, mask, i, o),
            |o: int| mask_hides(mask, i, o),
            s,
            i,
            j,
        ),
{
    broadcast use {extents, readings};

    let h = cfg.hidden_size as int;
    let d = cfg.width();
    let (cos, sin) = (Tensor::rope_cos(theta, 0, s, d), Tensor::rope_sin(theta, 0, s, d));
    let xs = tokens_of(f, x);
    let ns = attention_input(f, cfg, w, xs);
    let n = match w.attn_norm_gain {
        None => x,
        Some(g) => normed(x, g@, h, cfg.layer_norm_eps),
    };
    assert(has(n, seq![1, s, h]));
    assert forall|p: int, m: int| 0 <= p < s && 0 <= m < h implies #[trigger] at3(f, n, 0, p, m) == ns(p)(m) by {
        if let Some(g) = w.attn_norm_gain {
            normed_reads(f, x, g@, h, cfg.layer_norm_eps, s, p, m);
        }
    }
    let bias = |g: int, o: int| mask_number(f, mask, i, o);
    let hidden = |o: int| mask_hides(mask, i, o);
    let a = attention_value(cfg, w, n, cos, sin, mask);
    let y = x.add(a);
    let ys = |k: int| xs(i)(k) + attention_row(f, cfg, w, ns, theta, bias, hidden, s, i, k);
    attention_reads(f, cfg, w, n, ns, theta, mask, s, i, j);
    assert(has(y, seq![1, s, h]));
    assert forall|c: int| 0 <= c < h implies #[trigger] row3(f, y, 0, i)(c) == ys(c) by {
        attention_reads(f, cfg, w, n, ns, theta, mask, s, i, c);
        assert(at3(f, y, 0, i, c) == at3(f, x, 0, i, c) + at3(f, a, 0, i, c));
    }
    let m = normed(y, w.mlp_norm_gain@, h, cfg.layer_norm_eps);
    assert(has(m, seq![1, s, h]));
    let want = |c: int| normed_row(f, ys, w.mlp_norm_gain@, h, cfg.layer_norm_eps, c);
    assert forall|c: int| 0 <= c < h implies #[trigger] row3(f, m, 0, i)(c) == want(c) by {
        normed_reads(f, y, w.mlp_norm_gain@, h, cfg.layer_norm_eps, s, i, c);
        norms_alike(f, row3(f, y, 0, i), ys, h, number(f, cfg.layer_norm_eps), c);
    }
    geglu_reads(f, cfg, w, m, s, i, j);
    fed_alike(f, cfg, w, row3(f, m, 0, i), want, j);
    assert(row3(f, y, 0, i)(j) == ys(j));
    let ff = geglu_value(cfg, w, m);
    assert(at3(f, y.add(ff), 0, i, j) == at3(f, y, 0, i, j) + at3(f, ff, 0, i, j));
}

/// Equal rows are fed forward alike.
proof fn fed_alike(f: Functions, cfg: &ModernBertConfig, w: &ModernBertLayerWeights, x: Row, y: Row, j: int)
    requires
        forall|k: int| 0 <= k < cfg.hidden_size ==> #[trigger] x(k) == y(k),
    ensures
        fed(f, cfg, w, x, j) == fed(f, cfg, w, y, j),
{
    let h = cfg.hidden_size as int;
    let i = cfg.intermediate_size as int;
    let a = |m: int| gated_feature(f, cfg, w, x, m);
    let b = |m: int| gated_feature(f, cfg, w, y, m);
    assert forall|m: int| 0 <= m < i implies #[trigger] a(m) == b(m) by {
        mapped_alike(f, x, y, w.mlp_wi@, h, 2 * i, m);
        mapped_alike(f, x, y, w.mlp_wi@, h, 2 * i, i + m);
    }
    mapped_alike(f, a, b, w.mlp_wo@, i, h, j);
}

/// Whether layer `n` hides position `o` from position `i`: every layer by the mask
/// of the caller, and the layers between the global ones by distance.
pub open spec fn layer_hides(model: &ModernBertModel, mask: Option<Tensor>, n: int, i: int, o: int) -> bool {
    let half = model.config.local_attention as int / 2;
    ||| mask_hides(mask, i, o)
    ||| n % model.config.global_attn_every_n_layers as int != 0 && (i - o > half || o - i > half)
}

/// The base of the angles of layer `n`.
pub open spec fn base(model: &ModernBertModel, n: int) -> Scalar {
    if n % model.config.global_attn_every_n_layers as int == 0 {
        model.config.global_rope_theta
    } else {
        model.config.local_rope_theta
    }
}

/// The hidden states, number by number: normed embeddings, then one layer after the
/// other; every so many layers one sees all positions, the others a window, each
/// kind with its own angles.
#[verifier::spinoff_prover]
pub proof fn states_read(
    f: Functions,
    model: &ModernBertModel,
    tokens: Seq<u32>,
    mask: Option<Tensor>,
    n: int,
    i: int,
    j: int,
)
    requires
        model.config.addressable(tokens.len() as int),
        model.weights.sized(&model.config),
        0 <= n <= model.weights.layers@.len(),
        mask matches Some(m) ==> has(m, seq![1, 1, tokens.len() as int, tokens.len() as int]),
        0 <= i < tokens.len(),
        0 <= j < model.config.hidden_size,
    ensures
        n == 0 ==> at3(f, model.states(tokens, mask, n), 0, i, j) == normed_row(
            f,
            |k: int|
                number(
                    f,
                    model.weights.word_embedding@[tokens[i] * model.config.hidden_size + k],
                ),
            model.weights.embed_ln_gain@,
            model.config.hidden_size as int,
            model.config.layer_norm_eps,
            j,
        ),
        n > 0 ==> at3(f, model.states(tokens, mask, n), 0, i, j) == after_layer(
            f,
            &model.config,
            &model.weights.layers@[n - 1],
            tokens_of(f, model.states(tokens, mask, n - 1)),
            base(model, n - 1),
            |g: int, o: int| mask_number(f, mask, i, o),
            |o: int| layer_hides(model, mask, n - 1, i, o),
            tokens.len() as int,
            i,
            j,
        ),
{
    broadcast use {extents, readings};

    let cfg = &model.config;
    let h = cfg.hidden_size as int;
    let s = tokens.len() as int;
    if n == 0 {
        let e = Tensor::embed_tokens(model.weights.word_embedding@, cfg.vocab_size as int, h, tokens);
        crate::extents::embed_has(model.weights.word_embedding@, cfg.vocab_size as int, h, tokens);
        normed_reads(f, e, model.weights.embed_ln_gain@, h, cfg.layer_norm_eps, s, i, j);
        let want = |k: int| number(f, model.weights.word_embedding@[tokens[i] * h + k]);
        assert forall|k: int| 0 <= k < h implies #[trigger] row3(f, e, 0, i)(k) == want(k) by {
            read_embedding(f, model.weights.word_embedding@, cfg.vocab_size as int, h, tokens, i, k);
        }
        norms_alike(f, row3(f, e, 0, i), want, h, number(f, cfg.layer_norm_eps), j);
    } else {
        let x = model.states(tokens, mask, n - 1);
        states_succeed(model, tokens, mask, n - 1);
        local_mask_has(model, s);
        let lm = model.layer_mask(s, n - 1, mask);
        if let Some(m) = mask {
            assert(lies_under(model.local_mask(s).dims, m.dims));
            broadcast_add_under(m, model.local_mask(s));
        }
        layer_reads(f, cfg, &model.weights.layers@[n - 1], x, model.theta(n - 1), lm, s, i, j);
        let (b1, b2) = (|g: int, o: int| mask_number(f, lm, i, o), |g: int, o: int| mask_number(f, mask, i, o));
        let (h1, h2) = (|o: int| mask_hides(lm, i, o), |o: int| layer_hides(model, mask, n - 1, i, o));
        assert forall|o: int| 0 <= o < s implies #[trigger] h1(o) == h2(o) by {
            layer_mask_reads(f, model, mask, s, n - 1, i, o);
        }
        assert forall|g: int, o: int| 0 <= o < s && !h2(o) implies #[trigger] b1(g, o) == b2(g, o) by {
            layer_mask_reads(f, model, mask, s, n - 1, i, o);
        }
        layers_alike(
            f,
            cfg,
            &model.weights.layers@[n - 1],
            tokens_of(f, x),
            model.theta(n - 1),
            b1,
            b2,
            h1,
            h2,
            s,
            i,
            j,
        );
    }
}

/// The mask of a layer, number by number.
proof fn layer_mask_reads(
    f: Functions,
    model: &ModernBertModel,
    mask: Option<Tensor>,
    s: int,
    n: int,
    i: int,
    o: int,
)
    requires
        s >= 1,
        s * s <= usize::MAX,
        mask matches Some(m) ==> has(m, seq![1, 1, s, s]),
        0 <= i < s,
        0 <= o < s,
    ensures
        mask_hides(model.layer_mask(s, n, mask), i, o) == layer_hides(model, mask, n, i, o),
        !layer_hides(model, mask, n, i, o) ==> mask_number(f, model.layer_mask(s, n, mask), i, o) == mask_number(
            f,
            mask,
            i,
            o,
        ),
{
    broadcast use readings;

    if model.is_local(n) {
        let window = model.config.local_attention;
        let data = local_data(window, s);
        let flat = Tensor::constant(data, seq![s, s]);
        let local = model.local_mask(s);
        local_mask_has(model, s);
        products(s, s, 1, 1, 1, 1);
        assert(s * s >= 0) by (nonlinear_arith);
        constant_has(data, seq![s, s]);
        local_mask_rows(window, s, i, o);
        read_constant(f, data, seq![s, s], seq![i, o]);
        place2(i, o, s, s);
        place4(0, 0, i, o, 1, 1, s, s);
        assert((0 * 1 + 0) * s == 0) by (nonlinear_arith);
        read_reshape(f, flat, seq![1, 1, s, s], seq![i, o], seq![0, 0, i, o]);
        numbers_zero_one(f);
        assert(low4(local, 0, 0, i, o) == (i - o > window as int / 2 || o - i > window as int / 2));
        assert(!low4(local, 0, 0, i, o) ==> at4(f, local, 0, 0, i, o) == 0real);
        if let Some(m) = mask {
            assert(lies_under(local.dims, m.dims));
            broadcast_add_under(m, local);
            low_sum(m, local, 0, 0, i, o);
            assert(pick(s, i) == i && pick(s, o) == o);
            assert(at4(f, m.broadcast_add(local), 0, 0, i, o) == at4(f, m, 0, 0, i, o) + at4(
                f,
                local,
                0,
                0,
                pick(s, i),
                pick(s, o),
            ));
        }
    }
}

/// Equal masks make equal layers.
proof fn layers_alike(
    f: Functions,
    cfg: &ModernBertConfig,
    w: &ModernBertLayerWeights,
    x: Rows,
    theta: Scalar,
    b1: spec_fn(int, int) -> real,
    b2: spec_fn(int, int) -> real,
    h1: spec_fn(int) -> bool,
    h2: spec_fn(int) -> bool,
    s: int,
    i: int,
    j: int,
)
    requires
        cfg.num_attention_heads > 0,
        0 <= j < cfg.hidden_size,
        forall|o: int| 0 <= o < s ==> #[trigger] h1(o) == h2(o),
        forall|g: int, o: int| 0 <= o < s && !h2(o) ==> #[trigger] b1(g, o) == b2(g, o),
    ensures
        after_layer(f, cfg, w, x, theta, b1, h1, s, i, j) == after_layer(f, cfg, w, x, theta, b2, h2, s, i, j),
{
    let h = cfg.hidden_size as int;
    let d = cfg.width();
    let ns = attention_input(f, cfg, w, x);
    let q = turned_heads(third(f, w.wqkv@, ns, h, d, 0), cosines(f, theta, d), sines(f, theta, d), d);
    let k = turned_heads(third(f, w.wqkv@, ns, h, d, 1), cosines(f, theta, d), sines(f, theta, d), d);
    let v = third(f, w.wqkv@, ns, h, d, 2);
    let scl = 1real / (f.sqrt)(d as real);
    let c1 = |c: int| mixed_with(f, q, k, v, d, 1, s, scl, b1, h1, i, c);
    let c2 = |c: int| mixed_with(f, q, k, v, d, 1, s, scl, b2, h2, i, c);
    assert forall|c: int| #[trigger] c1(c) == c2(c) by {
        let s1 = |o: int| crate::formulas::dot(d, q(c / d, i), k(c / d / 1, o)) * scl + b1(c / d, o);
        let s2 = |o: int| crate::formulas::dot(d, q(c / d, i), k(c / d / 1, o)) * scl + b2(c / d, o);
        let vals = |o: int| v(c / d / 1, o)(c % d);
        assert forall|o: int| 0 <= o < s && !h1(o) implies #[trigger] s1(o) == s2(o) by {
            assert(h1(o) == h2(o));
            assert(b1(c / d, o) == b2(c / d, o));
        }
        crate::formulas::averages_alike(f, s, s1, s2, h1, h2, vals, vals);
    }
    assert(c1 =~= c2);
    let y1 = |c: int| x(i)(c) + attention_row(f, cfg, w, ns, theta, b1, h1, s, i, c);
    let y2 = |c: int| x(i)(c) + attention_row(f, cfg, w, ns, theta, b2, h2, s, i, c);
    assert forall|c: int| #[trigger] y1(c) == y2(c) by {}
    assert(y1 =~= y2);
}

/// The result, number by number: the states after the last layer, normed.
pub proof fn result_reads(
    f: Functions,
    model: &ModernBertModel,
    tokens: Seq<u32>,
    mask: Option<Tensor>,
    i: int,
    j: int,
)
    requires
        model.config.addressable(tokens.len() as int),
        model.weights.sized(&model.config),
        mask matches Some(m) ==> has(m, seq![1, 1, tokens.len() as int, tokens.len() as int]),
        0 <= i < tokens.len(),
        0 <= j < model.config.hidden_size,
    ensures
        at3(f, model.value(tokens, mask), 0, i, j) == normed_row(
            f,
            row3(f, model.states(tokens, mask, model.weights.layers@.len() as int), 0, i),
            model.weights.final_norm_gain@,
            model.config.hidden_size as int,
            model.config.layer_norm_eps,
            j,
        ),
{
    let n = model.weights.layers@.len() as int;
    states_succeed(model, tokens, mask, n);
    normed_reads(
        f,
        model.states(tokens, mask, n),
        model.weights.final_norm_gain@,
        model.config.hidden_size as int,
        model.config.layer_norm_eps,
        tokens.len() as int,
        i,
        j,
    );
}

} // verus!
