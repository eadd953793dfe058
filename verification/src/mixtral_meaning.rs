//! What Mixtral computes, number by number.

use crate::common::heads_are_shared;
use crate::extents::{broadcast_to_has, embed_has, extents, has};
use crate::formulas::{
    gated_row, head_of, mapped_heads, mixed, mixed_reads, rms_norm_reads, rms_normed,
    shares_follow_scores, swiglu_reads, tokens_of, turned_heads, Rows,
};
use crate::lazy::Tensor;
use crate::lazy_mistral::{window_data, window_mask, window_mask_rows};
use crate::lazy_mixtral::{
    experts_have, experts_value, layer_has, layer_value, layers_have, layers_over, moe_value,
    MixtralConfig, MixtralLayerWeights, MixtralModel,
};
use crate::meaning::{angle, at2, at3, at4, grows, number, row3, share, sum, Functions, Row};
use crate::readings::{
    mapped, mapped_alike, number_of_scale, pick, read_broadcast3, read_embedding, readings, row2, sums_alike,
    turned,
};
use crate::scalar::inv_sqrt64;
use vstd::prelude::*;

verus! {

/// The score that the router gives to expert `k` at a position with the row `x`.
pub open spec fn score(f: Functions, cfg: &MixtralConfig, w: &MixtralLayerWeights, x: Row, k: int) -> real {
    mapped(f, x, w.gate_w@, cfg.hidden_size as int, cfg.num_local_experts as int, k)
}

/// The weight of expert `k` at a position with the row `x`: the exponential of its
/// score over the sum of those of all experts.
pub open spec fn expert_weight(f: Functions, cfg: &MixtralConfig, w: &MixtralLayerWeights, x: Row, k: int) -> real {
    share(f, |e: int| score(f, cfg, w, x, e), |e: int| false, cfg.num_local_experts as int, k)
}

/// Feature `j` of the mixture at a position with the row `x`.
pub open spec fn mixture(f: Functions, cfg: &MixtralConfig, w: &MixtralLayerWeights, x: Row, j: int) -> real {
    sum(
        cfg.num_local_experts as int,
        |k: int|
            expert_weight(f, cfg, w, x, k) * gated_row(
                f,
                x,
                w.experts@[k].gate_w@,
                w.experts@[k].up_w@,
                w.experts@[k].down_w@,
                cfg.hidden_size as int,
                cfg.intermediate_size as int,
                j,
            ),
    )
}

/// The weights of the router, number by number.
proof fn router_reads(f: Functions, cfg: &MixtralConfig, w: &MixtralLayerWeights, x: Tensor, s: int, i: int, k: int)
    requires
        cfg.addressable(s),
        w.sized(cfg),
        has(x, seq![1, s, cfg.hidden_size as int]),
        0 <= i < s,
        0 <= k < cfg.num_local_experts,
    ensures
        ({
            let router = x.linear(
                w.gate_w@,
                cfg.hidden_size as int,
                cfg.num_local_experts as int,
            ).softmax_last_dim();
            at3(f, router, 0, i, k) == expert_weight(f, cfg, w, row3(f, x, 0, i), k)
        }),
{
    broadcast use {extents, readings};

    let n = cfg.num_local_experts as int;
    let h = cfg.hidden_size as int;
    let scores = x.linear(w.gate_w@, h, n);
    assert(has(scores, seq![1, s, n]));
    let r = row3(f, x, 0, i);
    let want = |e: int| score(f, cfg, w, r, e);
    let got = row3(f, scores, 0, i);
    assert forall|e: int| #[trigger] got(e) == want(e) by {
        assert(at3(f, scores, 0, i, e) == mapped(f, r, w.gate_w@, h, n, e));
    }
    assert(got =~= want);
    assert(forall|z: Seq<int>| !(#[trigger] crate::meaning::lows(scores)(z)));
    assert(at3(f, scores.softmax_last_dim(), 0, i, k) == share(f, got, |e: int| false, n, k));
}

/// The sum of the first `n` experts, number by number.
proof fn experts_read(
    f: Functions,
    cfg: &MixtralConfig,
    w: &MixtralLayerWeights,
    n: int,
    x: Tensor,
    s: int,
    i: int,
    j: int,
)
    requires
        cfg.addressable(s),
        w.sized(cfg),
        1 <= n <= w.experts@.len(),
        has(x, seq![1, s, cfg.hidden_size as int]),
        0 <= i < s,
        0 <= j < cfg.hidden_size,
    ensures
        ({
            let router = x.linear(
                w.gate_w@,
                cfg.hidden_size as int,
                cfg.num_local_experts as int,
            ).softmax_last_dim();
            let r = row3(f, x, 0, i);
            at3(f, experts_value(cfg, w.experts@, n, x, router, 1, s), 0, i, j) == sum(
                n,
                |k: int|
                    expert_weight(f, cfg, w, r, k) * gated_row(
                        f,
                        r,
                        w.experts@[k].gate_w@,
                        w.experts@[k].up_w@,
                        w.experts@[k].down_w@,
                        cfg.hidden_size as int,
                        cfg.intermediate_size as int,
                        j,
                    ),
            )
        }),
    decreases n,
{
    broadcast use {extents, readings};

    let h = cfg.hidden_size as int;
    let inner = cfg.intermediate_size as int;
    let ne = cfg.num_local_experts as int;
    let router = x.linear(w.gate_w@, h, ne).softmax_last_dim();
    assert(has(router, seq![1, s, ne]));
    let e = w.experts@[n - 1];
    let r = row3(f, x, 0, i);
    let one = crate::common::swiglu(x, e.gate_w@, e.up_w@, e.down_w@, h, inner);
    crate::common::swiglu_has(x, e.gate_w@, e.up_w@, e.down_w@, h, inner, 1, s);
    swiglu_reads(f, x, e.gate_w@, e.up_w@, e.down_w@, h, inner, 1, s, 0, i, j);
    let c = router.narrow(2, n - 1, 1);
    assert(c.dims =~= seq![1, s, 1]);
    let to = seq![1, s, h];
    broadcast_to_has(c, to);
    read_broadcast3(f, c, to, 0, i, j);
    router_reads(f, cfg, w, x, s, i, n - 1);
    let wide = c.broadcast_to(to);
    assert(at3(f, wide, 0, i, j) == at3(f, c, 0, pick(s, i), 0));
    assert(pick(s, i) == i);
    assert(at3(f, c, 0, i, 0) == at3(f, router, 0, i, n - 1));
    assert(at3(f, one.mul(wide), 0, i, j) == at3(f, one, 0, i, j) * at3(f, wide, 0, i, j));
    let a = at3(f, one, 0, i, j);
    let b = expert_weight(f, cfg, w, r, n - 1);
    assert(a * b == b * a) by (nonlinear_arith);
    let g = |k: int|
        expert_weight(f, cfg, w, r, k) * gated_row(
            f,
            r,
            w.experts@[k].gate_w@,
            w.experts@[k].up_w@,
            w.experts@[k].down_w@,
            h,
            inner,
            j,
        );
    assert(at3(f, one.mul(wide), 0, i, j) == g(n - 1));
    if n > 1 {
        experts_read(f, cfg, w, n - 1, x, s, i, j);
        experts_have(cfg, w, n - 1, x, router, s);
        let before = experts_value(cfg, w.experts@, n - 1, x, router, 1, s);
        assert(at3(f, before.add(one.mul(wide)), 0, i, j) == at3(f, before, 0, i, j) + at3(
            f,
            one.mul(wide),
            0,
            i,
            j,
        ));
    } else {
        assert(sum(0, g) == 0real);
    }
}

/// At each position the mixture is the sum of what the experts make of the row,
/// each weighed by the exponential of its router score over the sum of the
/// exponentials of all scores.
pub proof fn experts_are_weighed_by_softmax(
    f: Functions,
    cfg: &MixtralConfig,
    w: &MixtralLayerWeights,
    x: Tensor,
    s: int,
    i: int,
    j: int,
)
    requires
        cfg.addressable(s),
        w.sized(cfg),
        has(x, seq![1, s, cfg.hidden_size as int]),
        0 <= i < s,
        0 <= j < cfg.hidden_size,
    ensures
        at3(f, moe_value(cfg, w, x, 1, s), 0, i, j) == mixture(f, cfg, w, row3(f, x, 0, i), j),
{
    experts_read(f, cfg, w, cfg.num_local_experts as int, x, s, i, j);
}

/// An expert with a higher router score never weighs less, and every expert has
/// some weight.
pub proof fn higher_scores_weigh_more(
    f: Functions,
    cfg: &MixtralConfig,
    w: &MixtralLayerWeights,
    x: Row,
    a: int,
    b: int,
)
    requires
        grows(f),
        0 <= a < cfg.num_local_experts,
        0 <= b < cfg.num_local_experts,
        score(f, cfg, w, x, a) <= score(f, cfg, w, x, b),
    ensures
        0real < expert_weight(f, cfg, w, x, a) <= expert_weight(f, cfg, w, x, b),
{
    shares_follow_scores(f, |e: int| score(f, cfg, w, x, e), cfg.num_local_experts as int, a, b);
}

/// The angles of the positions from `start` on.
pub open spec fn cosines(f: Functions, cfg: &MixtralConfig, start: int) -> Rows {
    |p: int| |k: int| (f.cos)(angle(f, cfg.rope_theta, start + p, cfg.head_dim as int, k))
}

pub open spec fn sines(f: Functions, cfg: &MixtralConfig, start: int) -> Rows {
    |p: int| |k: int| (f.sin)(angle(f, cfg.rope_theta, start + p, cfg.head_dim as int, k))
}

/// The normed rows that attention reads.
pub open spec fn attention_input(f: Functions, cfg: &MixtralConfig, w: &MixtralLayerWeights, x: Rows) -> Rows {
    |p: int| |k: int| rms_normed(f, x(p), w.attn_norm_gain@, cfg.hidden_size as int, cfg.rms_norm_eps, k)
}

/// Feature `j` of position `i` after attention: its own row, plus what it attends
/// to among itself and the positions of its window before it.
pub open spec fn after_attention(
    f: Functions,
    cfg: &MixtralConfig,
    w: &MixtralLayerWeights,
    x: Rows,
    start: int,
    s: int,
    i: int,
    j: int,
) -> real {
    let h = cfg.hidden_size as int;
    let kv = cfg.num_key_value_heads * cfg.head_dim;
    let d = cfg.head_dim as int;
    let n = attention_input(f, cfg, w, x);
    let q = turned_heads(mapped_heads(f, n, w.attn_q@, h, h, d), cosines(f, cfg, start), sines(f, cfg, start), d);
    let k = turned_heads(mapped_heads(f, n, w.attn_k@, h, kv, d), cosines(f, cfg, start), sines(f, cfg, start), d);
    let v = mapped_heads(f, n, w.attn_v@, h, kv, d);
    let rep = cfg.num_attention_heads as int / cfg.num_key_value_heads as int;
    x(i)(j) + mapped(
        f,
        |c: int|
            mixed(
                f,
                q,
                k,
                v,
                d,
                rep,
                s,
                1real / (f.sqrt)(d as real),
                |o: int| o > i || (cfg.sliding_window matches Some(w) && i - o >= w),
                i,
                c,
            ),
        w.attn_o@,
        h,
        h,
        j,
    )
}

/// Feature `j` of position `i` after a layer: the row after attention, plus the
/// mixture of experts of that row, normed.
pub open spec fn after_layer(
    f: Functions,
    cfg: &MixtralConfig,
    w: &MixtralLayerWeights,
    x: Rows,
    start: int,
    s: int,
    i: int,
    j: int,
) -> real {
    let y = |k: int| after_attention(f, cfg, w, x, start, s, i, k);
    y(j) + mixture(
        f,
        cfg,
        w,
        |k: int| rms_normed(f, y, w.ffn_norm_gain@, cfg.hidden_size as int, cfg.rms_norm_eps, k),
        j,
    )
}

/// The sum of two rows of experts is the same where the rows are.
proof fn mixtures_alike(f: Functions, cfg: &MixtralConfig, w: &MixtralLayerWeights, x: Row, y: Row, j: int)
    requires
        forall|k: int| 0 <= k < cfg.hidden_size ==> #[trigger] x(k) == y(k),
    ensures
        mixture(f, cfg, w, x, j) == mixture(f, cfg, w, y, j),
{
    let h = cfg.hidden_size as int;
    let inner = cfg.intermediate_size as int;
    let n = cfg.num_local_experts as int;
    let a = |e: int| score(f, cfg, w, x, e);
    let b = |e: int| score(f, cfg, w, y, e);
    assert forall|e: int| #[trigger] a(e) == b(e) by {
        mapped_alike(f, x, y, w.gate_w@, h, n, e);
    }
    assert(a =~= b);
    let g = |k: int|
        expert_weight(f, cfg, w, x, k) * gated_row(
            f,
            x,
            w.experts@[k].gate_w@,
            w.experts@[k].up_w@,
            w.experts@[k].down_w@,
            h,
            inner,
            j,
        );
    let u = |k: int|
        expert_weight(f, cfg, w, y, k) * gated_row(
            f,
            y,
            w.experts@[k].gate_w@,
            w.experts@[k].up_w@,
            w.experts@[k].down_w@,
            h,
            inner,
            j,
        );
    assert forall|k: int| 0 <= k < n implies #[trigger] g(k) == u(k) by {
        crate::formulas::gated_alike(
            f,
            x,
            y,
            w.experts@[k].gate_w@,
            w.experts@[k].up_w@,
            w.experts@[k].down_w@,
            h,
            inner,
            j,
        );
    }
    sums_alike(n, g, u);
}

/// Projected and turned heads, number by number.
pub proof fn heads_read(
    f: Functions,
    t: Tensor,
    x: Rows,
    w: Seq<crate::scalar::Scalar>,
    cos: Tensor,
    sin: Tensor,
    cs: Rows,
    ss: Rows,
    n: int,
    o: int,
    heads: int,
    d: int,
    s: int,
    g: int,
    i: int,
    k: int,
)
    requires
        has(t, seq![1, s, n]),
        has(cos, seq![s, d]),
        has(sin, seq![s, d]),
        w.len() == n * o,
        n >= 1,
        o == heads * d,
        o >= 1,
        n * o <= usize::MAX,
        d >= 2,
        d % 2 == 0,
        0 <= g < heads,
        0 <= i < s,
        0 <= k < d,
        forall|m: int| 0 <= m < n ==> #[trigger] at3(f, t, 0, i, m) == x(i)(m),
        forall|m: int| 0 <= m < d ==> #[trigger] at2(f, cos, i, m) == cs(i)(m),
        forall|m: int| 0 <= m < d ==> #[trigger] at2(f, sin, i, m) == ss(i)(m),
    ensures
        at4(f, t.linear(w, n, o).split_heads(heads, d), 0, g, i, k) == mapped_heads(f, x, w, n, o, d)(g, i)(k),
        at4(f, t.linear(w, n, o).split_heads(heads, d).rope_with_tables(cos, sin), 0, g, i, k) == turned_heads(
            mapped_heads(f, x, w, n, o, d),
            cs,
            ss,
            d,
        )(g, i)(k),
{
    broadcast use {extents, readings};

    let y = t.linear(w, n, o);
    let z = y.split_heads(heads, d);
    let m = mapped_heads(f, x, w, n, o, d);
    assert forall|b: int| #[trigger] at4(f, z, 0, g, i, b) == m(g, i)(b) by {
        assert(at4(f, z, 0, g, i, b) == at3(f, y, 0, i, g * d + b));
        assert forall|e: int| 0 <= e < n implies #[trigger] row3(f, t, 0, i)(e) == x(i)(e) by {
            assert(at3(f, t, 0, i, e) == x(i)(e));
        }
        mapped_alike(f, row3(f, t, 0, i), x(i), w, n, o, g * d + b);
    }
    let half = d / 2;
    assert(at4(f, z, 0, g, i, k) == m(g, i)(k));
    assert(at4(f, z, 0, g, i, k + half) == m(g, i)(k + half));
    assert(at4(f, z, 0, g, i, k - half) == m(g, i)(k - half));
    assert(at2(f, cos, i, k) == cs(i)(k));
    assert(at2(f, sin, i, k) == ss(i)(k));
    let r = z.rope_with_tables(cos, sin);
    assert(at4(f, r, 0, g, i, k) == turned(
        crate::meaning::row4(f, z, 0, g, i),
        row2(f, cos, i),
        row2(f, sin, i),
        half,
        k,
    ));
}

/// A layer, number by number: attention over the window of each position, then the
/// mixture of experts, each on normed rows and added to the rows that it reads.
#[verifier::spinoff_prover]
pub proof fn layer_reads(
    f: Functions,
    cfg: &MixtralConfig,
    w: &MixtralLayerWeights,
    x: Tensor,
    start: int,
    s: int,
    i: int,
    j: int,
)
    requires
        cfg.addressable(s),
        w.sized(cfg),
        has(x, seq![1, s, cfg.hidden_size as int]),
        0 <= i < s,
        0 <= j < cfg.hidden_size,
    ensures
        at3(
            f,
            layer_value(
                cfg,
                w,
                x,
                Tensor::rope_cos(cfg.rope_theta, start, s, cfg.head_dim as int),
                Tensor::rope_sin(cfg.rope_theta, start, s, cfg.head_dim as int),
                window_mask(cfg.sliding_window, s),
            ),
            0,
            i,
            j,
        ) == after_layer(f, cfg, w, tokens_of(f, x), start, s, i, j),
{
    broadcast use {extents, readings};

    let h = cfg.hidden_size as int;
    let heads = cfg.num_attention_heads as int;
    let kvh = cfg.num_key_value_heads as int;
    let d = cfg.head_dim as int;
    let kv = cfg.kv();
    let rep = heads / kvh;
    let cos = Tensor::rope_cos(cfg.rope_theta, start, s, d);
    let sin = Tensor::rope_sin(cfg.rope_theta, start, s, d);
    let data = window_data(cfg.sliding_window, s);
    let mask = window_mask(cfg.sliding_window, s);
    heads_are_shared(heads, kvh, d);
    assert(h * kv <= h * h) by (nonlinear_arith)
        requires
            1 <= kv <= h,
    ;
    crate::common::mask_has(data, s, 1, heads);
    layer_has(cfg, w, x, cos, sin, mask, s);
    let xs = tokens_of(f, x);
    let ns = attention_input(f, cfg, w, xs);
    let (cs, ss) = (cosines(f, cfg, start), sines(f, cfg, start));
    let n = x.rms_norm(w.attn_norm_gain@, h, cfg.rms_norm_eps);
    assert forall|p: int, m: int| 0 <= p < s && 0 <= m < h implies #[trigger] at3(f, n, 0, p, m) == ns(p)(m) by {
        rms_norm_reads(f, x, w.attn_norm_gain@, h, cfg.rms_norm_eps, 0, p, m);
    }
    let q = n.linear(w.attn_q@, h, h).split_heads(heads, d).rope_with_tables(cos, sin);
    let k = n.linear(w.attn_k@, h, kv).split_heads(kvh, d).rope_with_tables(cos, sin);
    let v = n.linear(w.attn_v@, h, kv).split_heads(kvh, d);
    let (kr, vr) = (k.repeat_interleave(1, rep), v.repeat_interleave(1, rep));
    assert(kr.dims =~= seq![1, heads, s, d]);
    assert(vr.dims =~= seq![1, heads, s, d]);
    let qs = turned_heads(mapped_heads(f, ns, w.attn_q@, h, h, d), cs, ss, d);
    let ks = turned_heads(mapped_heads(f, ns, w.attn_k@, h, kv, d), cs, ss, d);
    let vs = mapped_heads(f, ns, w.attn_v@, h, kv, d);
    assert forall|g: int, o: int, m: int| 0 <= g < heads && 0 <= o < s && 0 <= m < d implies #[trigger] at4(
        f,
        q,
        0,
        g,
        o,
        m,
    ) == qs(g, o)(m) by {
        heads_read(f, n, ns, w.attn_q@, cos, sin, cs, ss, h, h, heads, d, s, g, o, m);
    }
    assert forall|g: int, o: int, m: int| 0 <= g < heads && 0 <= o < s && 0 <= m < d implies #[trigger] at4(
        f,
        kr,
        0,
        g,
        o,
        m,
    ) == ks(g / rep, o)(m) by {
        shared_head(g, heads, kvh, rep);
        heads_read(f, n, ns, w.attn_k@, cos, sin, cs, ss, h, kv, kvh, d, s, g / rep, o, m);
        assert(at4(f, kr, 0, g, o, m) == at4(f, k, 0, g / rep, o, m));
    }
    assert forall|g: int, o: int, m: int| 0 <= g < heads && 0 <= o < s && 0 <= m < d implies #[trigger] at4(
        f,
        vr,
        0,
        g,
        o,
        m,
    ) == vs(g / rep, o)(m) by {
        shared_head(g, heads, kvh, rep);
        heads_read(f, n, ns, w.attn_v@, cos, sin, cs, ss, h, kv, kvh, d, s, g / rep, o, m);
        assert(at4(f, vr, 0, g, o, m) == at4(f, v, 0, g / rep, o, m));
    }
    let scale = inv_sqrt64(cfg.head_dim);
    number_of_scale(f, cfg.head_dim);
    let hidden = |o: int| o > i || (cfg.sliding_window matches Some(w) && i - o >= w);
    assert forall|o: int| 0 <= o < s implies data[i * s + o] == crate::common::mask_value(#[trigger] hidden(o)) by {
        window_mask_rows(cfg.sliding_window, s, i, o);
    }
    let ctx = crate::common::masked_attention(q, kr, vr, scale, mask);
    crate::common::masked_attention_has(q, kr, vr, scale, mask, 1, heads, s, d);
    let merged = ctx.merge_heads();
    let ctxs = |c: int| mixed(f, qs, ks, vs, d, rep, s, 1real / (f.sqrt)(d as real), hidden, i, c);
    assert forall|c: int| 0 <= c < h implies #[trigger] row3(f, merged, 0, i)(c) == ctxs(c) by {
        head_of(c, heads, d);
        mixed_reads(f, q, kr, vr, qs, ks, vs, scale, data, hidden, heads, rep, s, d, i, c);
        assert(at3(f, merged, 0, i, c) == at4(f, ctx, 0, c / d, i, c % d));
    }
    let out = merged.linear(w.attn_o@, h, h);
    let h1 = x.add(out);
    let y = |c: int| after_attention(f, cfg, w, xs, start, s, i, c);
    assert forall|c: int| 0 <= c < h implies #[trigger] row3(f, h1, 0, i)(c) == y(c) by {
        mapped_alike(f, row3(f, merged, 0, i), ctxs, w.attn_o@, h, h, c);
        assert(at3(f, h1, 0, i, c) == at3(f, x, 0, i, c) + at3(f, out, 0, i, c));
    }
    let m = h1.rms_norm(w.ffn_norm_gain@, h, cfg.rms_norm_eps);
    let want = |c: int| rms_normed(f, y, w.ffn_norm_gain@, h, cfg.rms_norm_eps, c);
    assert forall|c: int| 0 <= c < h implies #[trigger] row3(f, m, 0, i)(c) == want(c) by {
        rms_norm_reads(f, h1, w.ffn_norm_gain@, h, cfg.rms_norm_eps, 0, i, c);
        crate::formulas::norms_alike(f, row3(f, h1, 0, i), y, h, number(f, cfg.rms_norm_eps), c);
    }
    experts_are_weighed_by_softmax(f, cfg, w, m, s, i, j);
    mixtures_alike(f, cfg, w, row3(f, m, 0, i), want, j);
    let moe = moe_value(cfg, w, m, 1, s);
    assert(row3(f, h1, 0, i)(j) == y(j));
    let router = m.linear(w.gate_w@, h, cfg.num_local_experts as int).softmax_last_dim();
    experts_have(cfg, w, w.experts@.len() as int, m, router, s);
    assert(at3(f, h1.add(moe), 0, i, j) == at3(f, h1, 0, i, j) + at3(f, moe, 0, i, j));
}

/// The states after the first `n` layers, number by number: each layer reads those
/// after the layers before it.
pub proof fn states_read(
    f: Functions,
    cfg: &MixtralConfig,
    layers: Seq<MixtralLayerWeights>,
    n: int,
    x: Tensor,
    start: int,
    s: int,
    i: int,
    j: int,
)
    requires
        cfg.addressable(s),
        0 <= n <= layers.len(),
        forall|e: int| 0 <= e < layers.len() ==> (#[trigger] layers[e]).sized(cfg),
        has(x, seq![1, s, cfg.hidden_size as int]),
        0 <= i < s,
        0 <= j < cfg.hidden_size,
    ensures
        n == 0 ==> at3(f, layers_over(cfg, layers, n, x, start, s), 0, i, j) == at3(f, x, 0, i, j),
        n > 0 ==> at3(f, layers_over(cfg, layers, n, x, start, s), 0, i, j) == after_layer(
            f,
            cfg,
            &layers[n - 1],
            tokens_of(f, layers_over(cfg, layers, n - 1, x, start, s)),
            start,
            s,
            i,
            j,
        ),
{
    broadcast use extents;

    if n > 0 {
        let d = cfg.head_dim as int;
        crate::common::mask_has(
            window_data(cfg.sliding_window, s),
            s,
            1,
            cfg.num_attention_heads as int,
        );
        layers_have(
            cfg,
            layers,
            n - 1,
            x,
            Tensor::rope_cos(cfg.rope_theta, start, s, d),
            Tensor::rope_sin(cfg.rope_theta, start, s, d),
            window_mask(cfg.sliding_window, s),
            s,
        );
        layer_reads(f, cfg, &layers[n - 1], layers_over(cfg, layers, n - 1, x, start, s), start, s, i, j);
    }
}

/// The logits of tokens, number by number: the states start as the embeddings of
/// the tokens, and those after the last layer are normed and mapped to the
/// vocabulary.
pub proof fn logits_read(f: Functions, model: &MixtralModel, tokens: Seq<u32>, start: int, i: int, j: int)
    requires
        model.config.addressable(tokens.len() as int),
        model.weights.sized(&model.config),
        0 <= i < tokens.len(),
    ensures
        ({
            let cfg = &model.config;
            let w = &model.weights;
            let h = cfg.hidden_size as int;
            let s = tokens.len() as int;
            let x = model.embedded(tokens);
            &&& 0 <= j < h ==> at3(f, x, 0, i, j) == number(f, w.token_embedding@[tokens[i] * h + j])
            &&& 0 <= j < cfg.vocab_size ==> at3(f, model.logits(x, start), 0, i, j) == mapped(
                f,
                |k: int|
                    rms_normed(
                        f,
                        row3(f, layers_over(cfg, w.layers@, w.layers@.len() as int, x, start, s), 0, i),
                        w.final_norm_gain@,
                        h,
                        cfg.rms_norm_eps,
                        k,
                    ),
                w.output@,
                h,
                cfg.vocab_size as int,
                j,
            )
        }),
{
    broadcast use {extents, readings};

    let cfg = &model.config;
    let w = &model.weights;
    let h = cfg.hidden_size as int;
    let v = cfg.vocab_size as int;
    let d = cfg.head_dim as int;
    let s = tokens.len() as int;
    let last = w.layers@.len() as int;
    assert(v * h == h * v) by (nonlinear_arith);
    let x = model.embedded(tokens);
    embed_has(w.token_embedding@, v, h, tokens);
    if 0 <= j < h {
        read_embedding(f, w.token_embedding@, v, h, tokens, i, j);
    }
    crate::common::mask_has(window_data(cfg.sliding_window, s), s, 1, cfg.num_attention_heads as int);
    layers_have(
        cfg,
        w.layers@,
        last,
        x,
        Tensor::rope_cos(cfg.rope_theta, start, s, d),
        Tensor::rope_sin(cfg.rope_theta, start, s, d),
        window_mask(cfg.sliding_window, s),
        s,
    );
    let y = layers_over(cfg, w.layers@, last, x, start, s);
    let n = y.rms_norm(w.final_norm_gain@, h, cfg.rms_norm_eps);
    if 0 <= j < v {
        let want = |k: int| rms_normed(f, row3(f, y, 0, i), w.final_norm_gain@, h, cfg.rms_norm_eps, k);
        assert forall|k: int| 0 <= k < h implies #[trigger] row3(f, n, 0, i)(k) == want(k) by {
            rms_norm_reads(f, y, w.final_norm_gain@, h, cfg.rms_norm_eps, 0, i, k);
        }
        mapped_alike(f, row3(f, n, 0, i), want, w.output@, h, v, j);
        assert(model.hidden(x, start) == n);
    }
}

/// The key head that serves a query head.
pub proof fn shared_head(g: int, heads: int, kvh: int, rep: int)
    requires
        0 <= g < heads,
        rep >= 1,
        kvh * rep == heads,
    ensures
        0 <= g / rep < kvh,
{
    assert(0 <= g / rep < kvh) by (nonlinear_arith)
        requires
            0 <= g < kvh * rep,
            rep >= 1,
    ;
}

} // verus!
