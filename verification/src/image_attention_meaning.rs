//! What attention over image maps computes, pixel by pixel.

use crate::extents::{
    broadcast_to_has, channel_affine_keeps, extents, has, permute_axes, products, reshape_has,
};
use crate::formulas::{average, averages_alike, dot, head_of, shares_mix};
use crate::images_meaning::{conv_bn_reads, normed_pixel, skip_reads};
use crate::lazy::Tensor;
use crate::lazy_mobilenetv4::{
    conv_succeeds, maybe_has, mqa_has, out_opt, shared_heads, shared_heads_have, side_opt, Conv2dBnWeights,
    MqaWeights,
};
use crate::meaning::{at, at3, at4, elements, lows, number, row4, sum, under, Functions};
use crate::readings::{
    lows4, names, number_of_scale, place3, place4, read_permute, read_reshape, readings, sums_alike,
};
use crate::scalar::inv_sqrt64;
use vstd::prelude::*;

verus! {

/// The map that attention makes of the maps of queries, keys and values.
spec fn attended_map(
    q: Tensor,
    k: Tensor,
    v: Tensor,
    b: int,
    heads: int,
    d: int,
    h: int,
    w: int,
    len: int,
    width: usize,
) -> Tensor {
    let qs = q.reshape(seq![b, heads, d, h * w]).permute(seq![0, 1, 3, 2]).mul_scalar(inv_sqrt64(width));
    let ks = shared_heads(k, b, heads, len, d);
    let vs = shared_heads(v, b, heads, len, d);
    let ctx = qs.matmul(ks.permute(seq![0, 1, 3, 2])).softmax_last_dim().matmul(vs);
    ctx.permute(seq![0, 2, 1, 3]).reshape(seq![b, h, w, d * heads]).permute(seq![0, 3, 1, 2])
}

/// The last two axes exchanged.
proof fn turned_reads(f: Functions, t: Tensor, a: int, b: int, c: int, d: int)
    requires
        !t.permute(seq![0, 1, 3, 2]).bad(),
    ensures
        at4(f, t.permute(seq![0, 1, 3, 2]), a, b, c, d) == at4(f, t, a, b, d, c),
{
    let ax = seq![0int, 1, 3, 2];
    assert(ax[0] == 0 && ax[1] == 1 && ax[2] == 3 && ax[3] == 2);
    assert forall|p: int| 0 <= p < ax.len() implies #[trigger] names(ax, p) by {
        assert(p == ax[0] || p == ax[1] || p == ax[2] || p == ax[3]);
    }
    read_permute(f, t, ax, seq![a, b, d, c], seq![a, b, c, d]);
}

/// Keys or values for all heads, number by number.
#[verifier::spinoff_prover]
proof fn shared_reads(f: Functions, t: Tensor, b: int, heads: int, d: int, h: int, w: int, p: int, g: int, y: int, x: int, k: int)
    requires
        has(t, seq![b, d, h, w]),
        b >= 1,
        d >= 1,
        h >= 1,
        w >= 1,
        b * d * (h * w) <= usize::MAX,
        0 <= p < b,
        0 <= g < heads,
        0 <= y < h,
        0 <= x < w,
        0 <= k < d,
    ensures
        at4(f, shared_heads(t, b, heads, h * w, d), p, g, y * w + x, k) == at4(f, t, p, k, y, x),
{
    broadcast use {extents, readings};

    let n = h * w;
    let o = y * w + x;
    assert(n >= 1 && 0 <= o < n) by (nonlinear_arith)
        requires
            n == h * w,
            o == y * w + x,
            0 <= y < h,
            0 <= x < w,
    ;
    shared_heads_have(t, b, heads, d, h, w);
    products(b, d, h, w, 1, 1);
    products(b, d, n, 1, 1, 1);
    products(b, n, d, 1, 1, 1);
    products(b, 1, n, d, 1, 1);
    assert(b * d * h * w == b * d * n) by (nonlinear_arith)
        requires
            n == h * w,
    ;
    assert(b * n * d == b * d * n && b * 1 * n * d == b * n * d) by (nonlinear_arith);
    reshape_has(t, seq![b, d, n]);
    let flat = t.reshape(seq![b, d, n]);
    let rows = flat.permute(seq![0, 2, 1]);
    reshape_has(rows, seq![b, 1, n, d]);
    let one = rows.reshape(seq![b, 1, n, d]);
    broadcast_to_has(one, seq![b, heads, n, d]);
    let spot = seq![p, g, o, k];
    assert(under(spot, seq![b, 1, n, d]) =~= seq![p, 0, o, k]) by {
        assert(b == 1 ==> p == 0);
        assert(n == 1 ==> o == 0);
        assert(d == 1 ==> k == 0);
    }
    assert(at(f, one.broadcast_to(seq![b, heads, n, d]), spot) == at(f, one, seq![p, 0, o, k])) by {
        reveal(Tensor::broadcast_to);
        reveal(elements);
    }
    place3(p, o, k, b, n, d);
    place4(p, 0, o, k, b, 1, n, d);
    assert(((p * 1 + 0) * n + o) * d + k == (p * n + o) * d + k) by (nonlinear_arith);
    read_reshape(f, rows, seq![b, 1, n, d], seq![p, o, k], seq![p, 0, o, k]);
    assert(at3(f, rows, p, o, k) == at3(f, flat, p, k, o));
    place4(p, k, y, x, b, d, h, w);
    place3(p, k, o, b, d, n);
    assert((p * d + k) * n + o == ((p * d + k) * h + y) * w + x) by (nonlinear_arith)
        requires
            n == h * w,
            o == y * w + x,
    ;
    read_reshape(f, t, seq![b, d, n], seq![p, k, y, x], seq![p, k, o]);
}

/// Attention over image maps, pixel by pixel: channel `c` of a pixel is that channel
/// of the values of all pixels of the smaller map, averaged under the query of the
/// pixel in the head of `c`; all heads share the keys and the values.
#[verifier::spinoff_prover]
#[verifier::rlimit(40)]
proof fn map_reads(
    f: Functions,
    q: Tensor,
    k: Tensor,
    v: Tensor,
    b: int,
    heads: int,
    d: int,
    h: int,
    w: int,
    kh: int,
    kw: int,
    width: usize,
    p: int,
    c: int,
    y: int,
    x: int,
)
    requires
        has(q, seq![b, d * heads, h, w]),
        has(k, seq![b, d, kh, kw]),
        has(v, seq![b, d, kh, kw]),
        b >= 1,
        heads >= 1,
        d == width >= 1,
        1 <= kh <= h,
        1 <= kw <= w,
        b * (d * heads) * (h * w) <= usize::MAX,
        0 <= p < b,
        0 <= c < d * heads,
        0 <= y < h,
        0 <= x < w,
    ensures
        has(attended_map(q, k, v, b, heads, d, h, w, kh * kw, width), seq![b, d * heads, h, w]),
        at4(f, attended_map(q, k, v, b, heads, d, h, w, kh * kw, width), p, c, y, x) == average(
            f,
            kh * kw,
            |o: int|
                dot(
                    d,
                    |e: int| at4(f, q, p, c / d * d + e, y, x) * (1real / (f.sqrt)(d as real)),
                    |e: int| at4(f, k, p, e, o / kw, o % kw),
                ),
            |o: int| false,
            |o: int| at4(f, v, p, c % d, o / kw, o % kw),
        ),
{
    broadcast use {extents, readings};

    let n = h * w;
    let qd = d * heads;
    let len = kh * kw;
    assert(1 <= len <= n) by (nonlinear_arith)
        requires
            len == kh * kw,
            n == h * w,
            1 <= kh <= h,
            1 <= kw <= w,
    ;
    assert(qd >= 1 && d <= qd) by (nonlinear_arith)
        requires
            qd == d * heads,
            d >= 1,
            heads >= 1,
    ;
    assert(b * d <= b * qd && b * qd >= 1) by (nonlinear_arith)
        requires
            b >= 1,
            1 <= d <= qd,
    ;
    assert(b * d * len <= b * qd * n) by (nonlinear_arith)
        requires
            1 <= len <= n,
            0 <= b * d <= b * qd,
    ;
    products(b, qd, h, w, 1, 1);
    products(b, heads, d, n, 1, 1);
    assert(b * qd * h * w == b * qd * n && b * heads * d * n == b * qd * n) by (nonlinear_arith)
        requires
            n == h * w,
            qd == d * heads,
    ;
    let four = seq![b, heads, d, n];
    reshape_has(q, four);
    let q0 = q.reshape(four);
    let ax = seq![0int, 1, 3, 2];
    permute_axes(q0, ax);
    let q1 = q0.permute(ax);
    assert(q1.dims =~= seq![b, heads, n, d]);
    let scale = inv_sqrt64(width);
    number_of_scale(f, width);
    let qs = q1.mul_scalar(scale);
    shared_heads_have(k, b, heads, d, kh, kw);
    shared_heads_have(v, b, heads, d, kh, kw);
    let ks = shared_heads(k, b, heads, len, d);
    let vs = shared_heads(v, b, heads, len, d);
    permute_axes(ks, ax);
    let kt = ks.permute(ax);
    assert(kt.dims =~= seq![b, heads, d, len]);
    let scores = qs.matmul(kt);
    assert(has(scores, seq![b, heads, n, len]));
    let ctx = scores.softmax_last_dim().matmul(vs);
    assert(has(ctx, seq![b, heads, n, d]));
    let rows = ctx.permute(seq![0, 2, 1, 3]);
    assert(has(rows, seq![b, n, heads, d]));
    products(b, n, heads, d, 1, 1);
    products(b, h, w, qd, 1, 1);
    assert(b * n * heads * d == b * qd * n && b * h * w * qd == b * qd * n) by (nonlinear_arith)
        requires
            n == h * w,
            qd == d * heads,
    ;
    let wide = seq![b, h, w, qd];
    reshape_has(rows, wide);
    let map = rows.reshape(wide);
    let back = seq![0int, 3, 1, 2];
    permute_axes(map, back);
    let o = map.permute(back);
    assert(o.dims =~= seq![b, qd, h, w]);
    assert(heads * d == qd) by (nonlinear_arith)
        requires
            qd == d * heads,
    ;
    head_of(c, heads, d);
    let (g, e) = (c / d, c % d);
    let i = y * w + x;
    assert(0 <= i < n) by (nonlinear_arith)
        requires
            i == y * w + x,
            n == h * w,
            0 <= y < h,
            0 <= x < w,
    ;
    assert(back[0] == 0 && back[1] == 3 && back[2] == 1 && back[3] == 2);
    assert forall|m: int| 0 <= m < back.len() implies #[trigger] names(back, m) by {
        assert(m == back[0] || m == back[1] || m == back[2] || m == back[3]);
    }
    read_permute(f, map, back, seq![p, y, x, c], seq![p, c, y, x]);
    place4(p, i, g, e, b, n, heads, d);
    place4(p, y, x, c, b, h, w, qd);
    assert(((p * n + i) * heads + g) * d + e == ((p * h + y) * w + x) * qd + c) by (nonlinear_arith)
        requires
            n == h * w,
            i == y * w + x,
            qd == d * heads,
            c == g * d + e,
    ;
    read_reshape(f, rows, wide, seq![p, i, g, e], seq![p, y, x, c]);
    assert(at4(f, rows, p, i, g, e) == at4(f, ctx, p, g, i, e));
    shares_mix(f, scores, vs, b, heads, n, len, d, p, g, i, e);
    let by = 1real / (f.sqrt)(d as real);
    let own = |z: int| at4(f, q, p, c / d * d + z, y, x) * by;
    let a = row4(f, scores, p, g, i);
    let want = |t: int| dot(d, own, |z: int| at4(f, k, p, z, t / kw, t % kw));
    let lo = lows4(scores, p, g, i);
    let none = |t: int| false;
    assert forall|z: Seq<int>| !(#[trigger] lows(scores)(z)) by {
        reveal(Tensor::matmul);
        reveal(lows);
    }
    assert forall|t: int| 0 <= t < len implies #[trigger] lo(t) == none(t) by {}
    assert forall|t: int| 0 <= t < len && !lo(t) implies #[trigger] a(t) == want(t) by {
        head_of(t, kh, kw);
        let far = |z: int| at4(f, k, p, z, t / kw, t % kw);
        let s1 = |z: int| at4(f, qs, p, g, i, z) * at4(f, kt, p, g, z, t);
        let s2 = |z: int| own(z) * far(z);
        assert forall|z: int| 0 <= z < d implies #[trigger] s1(z) == s2(z) by {
            turned_reads(f, q0, p, g, i, z);
            turned_reads(f, ks, p, g, z, t);
            shared_reads(f, k, b, heads, d, kh, kw, p, g, t / kw, t % kw, z);
            let ch = g * d + z;
            assert(0 <= ch < qd) by (nonlinear_arith)
                requires
                    ch == g * d + z,
                    0 <= g < heads,
                    0 <= z < d,
                    qd == d * heads,
            ;
            place4(p, ch, y, x, b, qd, h, w);
            place4(p, g, z, i, b, heads, d, n);
            assert(((p * heads + g) * d + z) * n + i == ((p * qd + ch) * h + y) * w + x) by (nonlinear_arith)
                requires
                    n == h * w,
                    i == y * w + x,
                    qd == d * heads,
                    ch == g * d + z,
            ;
            read_reshape(f, q, four, seq![p, ch, y, x], seq![p, g, z, i]);
            assert(at4(f, qs, p, g, i, z) == at4(f, q1, p, g, i, z) * number(f, scale));
        }
        sums_alike(d, s1, s2);
        assert(at4(f, scores, p, g, i, t) == sum(d, s1));
        assert(want(t) == sum(d, s2));
    }
    let got_v = |t: int| at4(f, vs, p, g, t, e);
    let want_v = |t: int| at4(f, v, p, c % d, t / kw, t % kw);
    assert forall|t: int| 0 <= t < len implies #[trigger] got_v(t) == want_v(t) by {
        head_of(t, kh, kw);
        shared_reads(f, v, b, heads, d, kh, kw, p, g, t / kw, t % kw, e);
    }
    averages_alike(f, len, a, want, lo, none, got_v, want_v);
    assert forall|t: int| #[trigger] want(t) == dot(
        d,
        |e: int| at4(f, q, p, c / d * d + e, y, x) * (1real / (f.sqrt)(d as real)),
        |e: int| at4(f, k, p, e, t / kw, t % kw),
    ) by {
        assert(own =~= (|e: int| at4(f, q, p, c / d * d + e, y, x) * (1real / (f.sqrt)(d as real))));
    }
}

/// An attention block, pixel by pixel: what attention makes of the normed image is
/// the map `z`; it is projected and scaled, and the image is added where asked.
#[verifier::spinoff_prover]
#[verifier::rlimit(40)]
pub proof fn attention_block_reads(
    f: Functions,
    m: &MqaWeights,
    t: Tensor,
    b: int,
    c: int,
    h: int,
    w: int,
    p: int,
    o: int,
    y: int,
    x: int,
) -> (z: Tensor)
    requires
        m.reads(c),
        m.covers(b, h, w),
        b >= 1,
        1 <= c <= usize::MAX,
        h >= 1,
        w >= 1,
        has(t, seq![b, c, h, w]),
        0 <= p < b,
        0 <= o < m.output_proj.c_out,
        0 <= y < h,
        0 <= x < w,
    ensures
        ({
            let d = m.kv_dim as int;
            let (kh, kw) = (side_opt(m.key_down, h), side_opt(m.key_down, w));
            let q = m.query_proj.value(m.normed(t));
            &&& has(z, seq![b, d * m.heads, h, w])
            &&& forall|i: int, e: int, u: int|
                0 <= e < d * m.heads && 0 <= i < h && 0 <= u < w ==> #[trigger] at4(f, z, p, e, i, u) == average(
                    f,
                    kh * kw,
                    |s: int|
                        dot(
                            d,
                            |k: int| at4(f, q, p, e / d * d + k, i, u) * (1real / (f.sqrt)(d as real)),
                            |k: int| at4(f, m.keys(t), p, k, s / kw, s % kw),
                        ),
                    |s: int| false,
                    |s: int| at4(f, m.values(t), p, e % d, s / kw, s % kw),
                )
            &&& at4(f, m.value(t), p, o, y, x) == normed_pixel(f, &m.output_proj, z, p, o, y, x) * (
            match m.layer_scale_gamma {
                None => 1real,
                Some(g) => number(f, g@[o]),
            }) + (if m.skip {
                at4(f, t, p, o, y, x)
            } else {
                0real
            })
        }),
{
    broadcast use extents;

    let heads = m.heads as int;
    let d = m.kv_dim as int;
    let qd = d * heads;
    let n = h * w;
    mqa_has(m, t, b, c, h, w);
    channel_affine_keeps(t, m.input_norm.w@, m.input_norm.b@);
    let s = m.normed(t);
    conv_succeeds(&m.query_proj, s, b, c, h, w);
    maybe_has(m.key_down, s, b, c, h, w);
    maybe_has(m.value_down, s, b, c, h, w);
    let (kh, kw) = (side_opt(m.key_down, h), side_opt(m.key_down, w));
    assert(kh == side_opt(m.value_down, h) && kw == side_opt(m.value_down, w));
    conv_succeeds(&m.key_proj, Conv2dBnWeights::maybe(m.key_down, s), b, out_opt(m.key_down, c), kh, kw);
    conv_succeeds(&m.value_proj, Conv2dBnWeights::maybe(m.value_down, s), b, out_opt(m.value_down, c), kh, kw);
    let (q, k, v) = (m.query_proj.value(s), m.keys(t), m.values(t));
    assert(has(q, seq![b, qd, h, w]));
    assert(has(k, seq![b, d, kh, kw]));
    assert(has(v, seq![b, d, kh, kw]));
    let len = kh * kw;
    let z = attended_map(q, k, v, b, heads, d, h, w, len, m.kv_dim);
    assert forall|i: int, e: int, u: int| 0 <= e < qd && 0 <= i < h && 0 <= u < w implies #[trigger] at4(
        f,
        z,
        p,
        e,
        i,
        u,
    ) == average(
        f,
        kh * kw,
        |s: int|
            dot(
                d,
                |k: int| at4(f, q, p, e / d * d + k, i, u) * (1real / (f.sqrt)(d as real)),
                |k: int| at4(f, m.keys(t), p, k, s / kw, s % kw),
            ),
        |s: int| false,
        |s: int| at4(f, m.values(t), p, e % d, s / kw, s % kw),
    ) by {
        map_reads(f, q, k, v, b, heads, d, h, w, kh, kw, m.kv_dim, p, e, i, u);
    }
    assert(qd >= 1) by (nonlinear_arith)
        requires
            qd == d * heads,
            d >= 1,
            heads >= 1,
    ;
    map_reads(f, q, k, v, b, heads, d, h, w, kh, kw, m.kv_dim, p, 0, y, x);
    assert(1 <= len <= n) by (nonlinear_arith)
        requires
            len == kh * kw,
            n == h * w,
            1 <= kh <= h,
            1 <= kw <= w,
    ;
    assert(n <= b * qd * n) by (nonlinear_arith)
        requires
            b >= 1,
            qd >= 1,
            n >= 1,
    ;
    conv_succeeds(&m.output_proj, z, b, qd, h, w);
    conv_bn_reads(f, &m.output_proj, z, b, qd, h, w, p, o, y, x);
    skip_reads(
        f,
        m.output_proj.value(z),
        m.layer_scale_gamma,
        m.skip,
        t,
        b,
        m.output_proj.c_out as int,
        h,
        w,
        p,
        o,
        y,
        x,
    );
    assert(k.dim(2) * k.dim(3) == len);
    assert(m.value(t) == crate::lazy_mobilenetv4::scaled_skip(
        m.output_proj.value(z),
        m.layer_scale_gamma,
        m.skip,
        t,
    ));
    z
}

} // verus!
