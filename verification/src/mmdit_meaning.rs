//! What the joint transformers compute, number by number.

use crate::common::{full_attention, full_attention_has};
use crate::extents::{extents, has, products, reshape_has};
use crate::formulas::{
    affine_row, average, averages_alike, dot, dots_alike, full_attention_reads, head_of, headed, norms_alike, Rows,
};
use crate::lazy::Tensor;
use crate::lazy_mmdit::{
    along, along_has, attended, biased, double_stream, gated, joint_attention, joint_attention_has,
    modulated, modulated_has, modulation, modulation_at, modulation_at_has, single_stream,
    stream_part, stream_part_has, stream_update, DoubleStreamBlockWeights, MmDitConfig,
    SingleStreamBlockWeights, StreamWeights,
};
use crate::meaning::{at1, at2, at3, at4, number, row3, row4, share, silu, standard, sum, weight, Functions, Row};
use crate::readings::{
    mapped, mapped_alike, number_of_scale, numbers_zero_one, pick, place2, place3, read_broadcast3, read_reshape,
    readings, row2, sums_alike,
};
use crate::scalar::{inv_sqrt64, Scalar};
use vstd::prelude::*;

verus! {

/// Feature `j` of modulation vector `part` of the conditioning vector `c`.
pub open spec fn modulator(f: Functions, w: &StreamWeights, c: Row, d: int, part: int, j: int) -> real {
    affine_row(f, |k: int| silu(f, c(k)), w.adaln_proj@, w.adaln_bias@, d, 6 * d, part * d + j)
}

/// Feature `j` of a token with mean zero and variance one, times one plus a scale,
/// plus a shift.
pub open spec fn modulated_row(
    f: Functions,
    cfg: &MmDitConfig,
    w: &StreamWeights,
    c: Row,
    x: Row,
    scale: int,
    shift: int,
    j: int,
) -> real {
    let d = cfg.dim as int;
    standard(f, x, d, number(f, cfg.eps), j) * (modulator(f, w, c, d, scale, j) + 1real) + modulator(
        f,
        w,
        c,
        d,
        shift,
        j,
    )
}

/// The query (0), key (1) or value (2) of a token.
pub open spec fn part_row(f: Functions, cfg: &MmDitConfig, w: &StreamWeights, c: Row, x: Row, part: int) -> Row {
    let d = cfg.dim as int;
    |j: int|
        affine_row(
            f,
            |k: int| modulated_row(f, cfg, w, c, x, 1, 0, k),
            w.qkv_proj@,
            w.qkv_bias@,
            d,
            3 * d,
            part * d + j,
        )
}

/// Feature `j` of a token after it got the row `attn` from attention: projected,
/// gated and added; then the feed-forward part of the result, gated and added.
pub open spec fn updated_row(
    f: Functions,
    cfg: &MmDitConfig,
    w: &StreamWeights,
    c: Row,
    x: Row,
    attn: Row,
    j: int,
) -> real {
    let d = cfg.dim as int;
    let m = cfg.dim * cfg.mlp_ratio;
    let y = |k: int| x(k) + affine_row(f, attn, w.out_proj@, w.out_bias@, d, d, k) * modulator(f, w, c, d, 2, k);
    y(j) + affine_row(
        f,
        |z: int|
            (f.gelu)(
                affine_row(
                    f,
                    |k: int| modulated_row(f, cfg, w, c, y, 4, 3, k),
                    w.fc1@,
                    w.fc1_bias@,
                    d,
                    m,
                    z,
                ),
            ),
        w.fc2@,
        w.fc2_bias@,
        m,
        d,
        j,
    ) * modulator(f, w, c, d, 5, j)
}

/// The query, key or value of token `o` of the text tokens followed by the image
/// tokens, `t` of which are text.
pub open spec fn joint_part(
    f: Functions,
    cfg: &MmDitConfig,
    w: &DoubleStreamBlockWeights,
    c: Row,
    txt: Rows,
    img: Rows,
    t: int,
    part: int,
    o: int,
) -> Row {
    if o < t {
        part_row(f, cfg, &w.text, c, txt(o), part)
    } else {
        part_row(f, cfg, &w.image, c, img(o - t), part)
    }
}

/// Feature `k` of what a token with the query `q` attends to: the values of all
/// tokens, averaged under the softmax of the scaled products of its query with
/// their keys, head by head.
pub open spec fn attended_row(f: Functions, q: Row, keys: Rows, vals: Rows, n: int, width: int, k: int) -> real {
    average(
        f,
        n,
        |o: int| dot(width, headed(q, k / width, width), headed(keys(o), k / width, width)) * (1real / (f.sqrt)(
            width as real,
        )),
        |o: int| false,
        |o: int| vals(o)(k),
    )
}

/// What token `o` of a double-stream block attends to.
pub open spec fn joint_row(
    f: Functions,
    cfg: &MmDitConfig,
    w: &DoubleStreamBlockWeights,
    c: Row,
    txt: Rows,
    img: Rows,
    t: int,
    s: int,
    o: int,
) -> Row {
    |k: int|
        attended_row(
            f,
            joint_part(f, cfg, w, c, txt, img, t, 0, o),
            |z: int| joint_part(f, cfg, w, c, txt, img, t, 1, z),
            |z: int| joint_part(f, cfg, w, c, txt, img, t, 2, z),
            t + s,
            cfg.width(),
            k,
        )
}

/// The tokens of sample `p`.
pub open spec fn sample(f: Functions, t: Tensor, p: int) -> Rows {
    |i: int| row3(f, t, p, i)
}

/// A matrix and a bias over tokens, number by number.
pub proof fn biased_reads3(
    f: Functions,
    x: Tensor,
    r: Row,
    w: Seq<Scalar>,
    b: Seq<Scalar>,
    n: int,
    o: int,
    bs: int,
    s: int,
    p: int,
    i: int,
    j: int,
)
    requires
        has(x, seq![bs, s, n]),
        w.len() == n * o,
        n >= 1,
        1 <= o <= usize::MAX,
        n * o <= usize::MAX,
        b.len() == o,
        0 <= p < bs,
        0 <= i < s,
        0 <= j < o,
        forall|k: int| 0 <= k < n ==> #[trigger] at3(f, x, p, i, k) == r(k),
    ensures
        has(biased(x, w, b, n, o), seq![bs, s, o]),
        at3(f, biased(x, w, b, n, o), p, i, j) == affine_row(f, r, w, b, n, o, j),
{
    broadcast use {extents, readings};

    let y = x.linear(w, n, o);
    assert forall|k: int| 0 <= k < n implies #[trigger] row3(f, x, p, i)(k) == r(k) by {
        assert(at3(f, x, p, i, k) == r(k));
    }
    mapped_alike(f, row3(f, x, p, i), r, w, n, o, j);
    assert(at3(f, y, p, i, j) == mapped(f, row3(f, x, p, i), w, n, o, j));
}

/// A vector for every token, number by number.
pub proof fn along_reads(f: Functions, v: Tensor, x: Tensor, b: int, s: int, d: int, p: int, i: int, j: int)
    requires
        has(v, seq![b, d]),
        has(x, seq![b, s, d]),
        b >= 1,
        d >= 1,
        b * d <= usize::MAX,
        0 <= p < b,
        0 <= i < s,
        0 <= j < d,
    ensures
        at3(f, along(v, x), p, i, j) == at2(f, v, p, j),
{
    along_has(v, x, b, s, d);
    products(b, d, 1, 1, 1, 1);
    products(b, 1, d, 1, 1, 1);
    assert(b * 1 * d == b * d);
    reshape_has(v, seq![b, 1, d]);
    let y = v.reshape(seq![b, 1, d]);
    read_broadcast3(f, y, seq![b, s, d], p, i, j);
    place2(p, j, b, d);
    place3(p, 0, j, b, 1, d);
    assert((p * 1 + 0) * d == p * d);
    read_reshape(f, v, seq![b, 1, d], seq![p, j], seq![p, 0, j]);
    assert(pick(b, p) == p && pick(d, j) == j);
}

/// The modulation vectors, number by number.
proof fn modulator_reads(
    f: Functions,
    cfg: &MmDitConfig,
    w: &StreamWeights,
    c: Tensor,
    b: int,
    s: int,
    part: int,
    p: int,
    j: int,
)
    requires
        cfg.addressable(b, s),
        w.sized(cfg),
        has(c, seq![b, cfg.dim as int]),
        0 <= part < 6,
        0 <= p < b,
        0 <= j < cfg.dim,
    ensures
        at2(f, modulation_at(c, w, cfg.dim as int, part), p, j) == modulator(
            f,
            w,
            row2(f, c, p),
            cfg.dim as int,
            part,
            j,
        ),
{
    broadcast use {extents, readings};

    let d = cfg.dim as int;
    let m = modulation(c, w.adaln_proj@, w.adaln_bias@, d, 6);
    assert(has(m, seq![b, 6 * d]));
    assert((6 * d) / 6 == d && (6 * d) % 6 == 0);
    let z = c.silu();
    let k0 = part * d + j;
    assert(0 <= k0 < 6 * d) by (nonlinear_arith)
        requires
            0 <= part < 6,
            0 <= j < d,
            k0 == part * d + j,
    ;
    let want = |k: int| silu(f, row2(f, c, p)(k));
    assert forall|k: int| #[trigger] row2(f, z, p)(k) == want(k) by {
        assert(at2(f, z, p, k) == silu(f, at2(f, c, p, k)));
    }
    mapped_alike(f, row2(f, z, p), want, w.adaln_proj@, d, 6 * d, k0);
    let y = z.linear(w.adaln_proj@, d, 6 * d);
    assert(at2(f, m, p, k0) == at2(f, y, p, k0) + at1(
        f,
        Tensor::constant(w.adaln_bias@, seq![6 * d]),
        k0,
    ));
    assert(at2(f, y, p, k0) == mapped(f, row2(f, z, p), w.adaln_proj@, d, 6 * d, k0));
    assert(at2(f, m.chunk(1, 6, part), p, j) == at2(f, m, p, j + part * (m.dims[1] / 6)));
}

/// Modulated tokens, number by number.
proof fn modulated_reads(
    f: Functions,
    cfg: &MmDitConfig,
    w: &StreamWeights,
    c: Tensor,
    x: Tensor,
    xr: Row,
    scale: int,
    shift: int,
    b: int,
    s: int,
    p: int,
    i: int,
    j: int,
)
    requires
        cfg.addressable(b, s),
        w.sized(cfg),
        has(c, seq![b, cfg.dim as int]),
        has(x, seq![b, s, cfg.dim as int]),
        0 <= scale < 6,
        0 <= shift < 6,
        0 <= p < b,
        0 <= i < s,
        0 <= j < cfg.dim,
        forall|k: int| 0 <= k < cfg.dim ==> #[trigger] at3(f, x, p, i, k) == xr(k),
    ensures
        ({
            let d = cfg.dim as int;
            let m = modulated(
                x.layer_norm_last_dim(cfg.eps),
                modulation_at(c, w, d, scale),
                modulation_at(c, w, d, shift),
            );
            &&& has(m, seq![b, s, d])
            &&& at3(f, m, p, i, j) == modulated_row(f, cfg, w, row2(f, c, p), xr, scale, shift, j)
        }),
{
    broadcast use {extents, readings};

    let d = cfg.dim as int;
    let n = x.layer_norm_last_dim(cfg.eps);
    let (sc, sh) = (modulation_at(c, w, d, scale), modulation_at(c, w, d, shift));
    modulation_at_has(c, w, cfg, scale, b, s);
    modulation_at_has(c, w, cfg, shift, b, s);
    modulated_has(n, sc, sh, b, s, d);
    along_has(sc, n, b, s, d);
    along_has(sh, n, b, s, d);
    along_reads(f, sc, n, b, s, d, p, i, j);
    along_reads(f, sh, n, b, s, d, p, i, j);
    modulator_reads(f, cfg, w, c, b, s, scale, p, j);
    modulator_reads(f, cfg, w, c, b, s, shift, p, j);
    numbers_zero_one(f);
    let one = along(sc, n).add_scalar(crate::scalar::one64());
    assert(at3(f, one, p, i, j) == at3(f, along(sc, n), p, i, j) + 1real);
    let y = n.mul(one);
    assert(at3(f, y, p, i, j) == at3(f, n, p, i, j) * at3(f, one, p, i, j));
    assert(at3(f, y.add(along(sh, n)), p, i, j) == at3(f, y, p, i, j) + at3(f, along(sh, n), p, i, j));
    assert forall|k: int| 0 <= k < d implies #[trigger] row3(f, x, p, i)(k) == xr(k) by {
        assert(at3(f, x, p, i, k) == xr(k));
    }
    norms_alike(f, row3(f, x, p, i), xr, d, number(f, cfg.eps), j);
}

/// Queries, keys and values of a stream, number by number.
pub proof fn stream_part_reads(
    f: Functions,
    cfg: &MmDitConfig,
    w: &StreamWeights,
    c: Tensor,
    x: Tensor,
    part: int,
    b: int,
    s: int,
    p: int,
    g: int,
    i: int,
    k: int,
)
    requires
        cfg.addressable(b, s),
        w.sized(cfg),
        has(c, seq![b, cfg.dim as int]),
        has(x, seq![b, s, cfg.dim as int]),
        0 <= part < 3,
        0 <= p < b,
        0 <= g < cfg.num_heads,
        0 <= i < s,
        0 <= k < cfg.width(),
    ensures
        at4(f, stream_part(cfg, w, c, x, part), p, g, i, k) == part_row(
            f,
            cfg,
            w,
            row2(f, c, p),
            row3(f, x, p, i),
            part,
        )(g * cfg.width() + k),
{
    broadcast use {extents, readings};

    let d = cfg.dim as int;
    let heads = cfg.num_heads as int;
    let width = cfg.width();
    let m = modulated(
        x.layer_norm_last_dim(cfg.eps),
        modulation_at(c, w, d, 1),
        modulation_at(c, w, d, 0),
    );
    let xr = row3(f, x, p, i);
    let mr = |z: int| modulated_row(f, cfg, w, row2(f, c, p), xr, 1, 0, z);
    assert forall|z: int| 0 <= z < d implies #[trigger] at3(f, m, p, i, z) == mr(z) by {
        modulated_reads(f, cfg, w, c, x, xr, 1, 0, b, s, p, i, z);
    }
    modulated_reads(f, cfg, w, c, x, xr, 1, 0, b, s, p, i, 0);
    stream_part_has(cfg, w, c, x, part, b, s);
    let j = g * width + k;
    assert(0 <= j < d && 0 <= part * d + j < 3 * d) by (nonlinear_arith)
        requires
            0 <= g < heads,
            0 <= k < width,
            heads * width == d,
            0 <= part < 3,
            j == g * width + k,
    ;
    assert(d * (3 * d) <= d * (6 * d)) by (nonlinear_arith)
        requires
            d >= 1,
    ;
    let qkv = biased(m, w.qkv_proj@, w.qkv_bias@, d, 3 * d);
    biased_reads3(f, m, mr, w.qkv_proj@, w.qkv_bias@, d, 3 * d, b, s, p, i, part * d + j);
    assert(part * d + d <= 3 * d) by (nonlinear_arith)
        requires
            0 <= part < 3,
            d >= 1,
    ;
    let y = qkv.narrow(2, part * d, d);
    assert(y.dims =~= seq![b, s, d]);
    assert(at3(f, y, p, i, j) == at3(f, qkv, p, i, j + part * d));
    assert(at4(f, y.split_heads(heads, width), p, g, i, k) == at3(f, y, p, i, j));
}

/// What attention and the feed-forward part make of a stream, number by number.
#[verifier::spinoff_prover]
pub proof fn stream_update_reads(
    f: Functions,
    cfg: &MmDitConfig,
    w: &StreamWeights,
    c: Tensor,
    x: Tensor,
    attn: Tensor,
    ar: Row,
    b: int,
    s: int,
    p: int,
    i: int,
    j: int,
)
    requires
        cfg.addressable(b, s),
        w.sized(cfg),
        has(c, seq![b, cfg.dim as int]),
        has(x, seq![b, s, cfg.dim as int]),
        has(attn, seq![b, s, cfg.dim as int]),
        0 <= p < b,
        0 <= i < s,
        0 <= j < cfg.dim,
        forall|k: int| 0 <= k < cfg.dim ==> #[trigger] at3(f, attn, p, i, k) == ar(k),
    ensures
        at3(f, stream_update(cfg, w, c, x, attn), p, i, j) == updated_row(
            f,
            cfg,
            w,
            row2(f, c, p),
            row3(f, x, p, i),
            ar,
            j,
        ),
{
    broadcast use {extents, readings};

    let d = cfg.dim as int;
    let m = cfg.hidden();
    let cr = row2(f, c, p);
    let xr = row3(f, x, p, i);
    assert(d * d <= d * (6 * d) && m * d == d * m) by (nonlinear_arith)
        requires
            d >= 1,
    ;
    assert(m >= 1) by (nonlinear_arith)
        requires
            m == d * cfg.mlp_ratio,
            d >= 1,
            cfg.mlp_ratio >= 1,
    ;
    modulation_at_has(c, w, cfg, 2, b, s);
    modulation_at_has(c, w, cfg, 5, b, s);
    let out = biased(attn, w.out_proj@, w.out_bias@, d, d);
    biased_reads3(f, attn, ar, w.out_proj@, w.out_bias@, d, d, b, s, p, i, j);
    let g2 = modulation_at(c, w, d, 2);
    along_has(g2, x, b, s, d);
    let y = gated(x, out, g2);
    let delta = out.mul(along(g2, x));
    assert(has(delta, seq![b, s, d]));
    assert(has(y, seq![b, s, d]));
    let yr = |k: int| xr(k) + affine_row(f, ar, w.out_proj@, w.out_bias@, d, d, k) * modulator(f, w, cr, d, 2, k);
    assert forall|k: int| 0 <= k < d implies #[trigger] at3(f, y, p, i, k) == yr(k) by {
        biased_reads3(f, attn, ar, w.out_proj@, w.out_bias@, d, d, b, s, p, i, k);
        along_reads(f, g2, x, b, s, d, p, i, k);
        modulator_reads(f, cfg, w, c, b, s, 2, p, k);
        assert(at3(f, delta, p, i, k) == at3(f, out, p, i, k) * at3(f, along(g2, x), p, i, k));
        assert(at3(f, x.add(delta), p, i, k) == at3(f, x, p, i, k) + at3(f, delta, p, i, k));
    }
    let n = modulated(y.layer_norm_last_dim(cfg.eps), modulation_at(c, w, d, 4), modulation_at(c, w, d, 3));
    let nr = |k: int| modulated_row(f, cfg, w, cr, yr, 4, 3, k);
    modulated_reads(f, cfg, w, c, y, yr, 4, 3, b, s, p, i, j);
    assert forall|k: int| 0 <= k < d implies #[trigger] at3(f, n, p, i, k) == nr(k) by {
        modulated_reads(f, cfg, w, c, y, yr, 4, 3, b, s, p, i, k);
    }
    let up = biased(n, w.fc1@, w.fc1_bias@, d, m);
    biased_reads3(f, n, nr, w.fc1@, w.fc1_bias@, d, m, b, s, p, i, 0);
    let act = up.gelu();
    let acts = |z: int| (f.gelu)(affine_row(f, nr, w.fc1@, w.fc1_bias@, d, m, z));
    assert forall|z: int| 0 <= z < m implies #[trigger] at3(f, act, p, i, z) == acts(z) by {
        biased_reads3(f, n, nr, w.fc1@, w.fc1_bias@, d, m, b, s, p, i, z);
        assert(at3(f, act, p, i, z) == (f.gelu)(at3(f, up, p, i, z)));
    }
    let down = biased(act, w.fc2@, w.fc2_bias@, m, d);
    biased_reads3(f, act, acts, w.fc2@, w.fc2_bias@, m, d, b, s, p, i, j);
    let g5 = modulation_at(c, w, d, 5);
    along_has(g5, y, b, s, d);
    along_reads(f, g5, y, b, s, d, p, i, j);
    modulator_reads(f, cfg, w, c, b, s, 5, p, j);
    let delta2 = down.mul(along(g5, y));
    assert(at3(f, delta2, p, i, j) == at3(f, down, p, i, j) * at3(f, along(g5, y), p, i, j));
    assert(at3(f, y.add(delta2), p, i, j) == at3(f, y, p, i, j) + at3(f, delta2, p, i, j));
    assert(at3(f, y, p, i, j) == yr(j));
}

/// Attention of heads whose rows are known, merged, number by number.
pub proof fn attended_reads(
    f: Functions,
    q: Tensor,
    k: Tensor,
    v: Tensor,
    qs: Rows,
    ks: Rows,
    vs: Rows,
    b: int,
    heads: int,
    n: int,
    width: int,
    p: int,
    o: int,
    z: int,
)
    requires
        has(q, seq![b, heads, n, width]),
        has(k, seq![b, heads, n, width]),
        has(v, seq![b, heads, n, width]),
        1 <= width <= usize::MAX,
        heads * width <= usize::MAX,
        0 <= o < n,
        0 <= z < heads * width,
        forall|g: int, i: int, e: int|
            0 <= g < heads && 0 <= i < n && 0 <= e < width ==> #[trigger] at4(f, q, p, g, i, e) == qs(i)(g * width + e),
        forall|g: int, i: int, e: int|
            0 <= g < heads && 0 <= i < n && 0 <= e < width ==> #[trigger] at4(f, k, p, g, i, e) == ks(i)(g * width + e),
        forall|g: int, i: int, e: int|
            0 <= g < heads && 0 <= i < n && 0 <= e < width ==> #[trigger] at4(f, v, p, g, i, e) == vs(i)(g * width + e),
    ensures
        at3(f, attended(q, k, v, width as usize), p, o, z) == attended_row(f, qs(o), ks, vs, n, width, z),
{
    broadcast use {extents, readings};

    let scale = inv_sqrt64(width as usize);
    number_of_scale(f, width as usize);
    full_attention_has(q, k, v, scale, b, heads, n, width);
    let ctx = full_attention(q, k, v, scale);
    head_of(z, heads, width);
    let (g, e) = (z / width, z % width);
    full_attention_reads(f, q, k, v, scale, b, heads, n, width, p, g, o, e);
    let s1 = |i: int| dot(width, row4(f, q, p, g, o), row4(f, k, p, g, i)) * number(f, scale);
    let s2 = |i: int|
        dot(width, headed(qs(o), g, width), headed(ks(i), g, width)) * (1real / (f.sqrt)(width as real));
    assert forall|i: int| 0 <= i < n implies #[trigger] s1(i) == s2(i) by {
        assert forall|y: int| 0 <= y < width implies #[trigger] row4(f, q, p, g, o)(y) == headed(qs(o), g, width)(
            y,
        ) by {
            assert(at4(f, q, p, g, o, y) == qs(o)(g * width + y));
        }
        assert forall|y: int| 0 <= y < width implies #[trigger] row4(f, k, p, g, i)(y) == headed(ks(i), g, width)(
            y,
        ) by {
            assert(at4(f, k, p, g, i, y) == ks(i)(g * width + y));
        }
        dots_alike(
            width,
            row4(f, q, p, g, o),
            row4(f, k, p, g, i),
            headed(qs(o), g, width),
            headed(ks(i), g, width),
        );
    }
    let v1 = |i: int| at4(f, v, p, g, i, e);
    let v2 = |i: int| vs(i)(z);
    assert forall|i: int| 0 <= i < n implies #[trigger] v1(i) == v2(i) by {
        assert(at4(f, v, p, g, i, e) == vs(i)(g * width + e));
    }
    let none = |i: int| false;
    averages_alike(f, n, s1, s2, none, none, v1, v2);
    assert(at3(f, ctx.merge_heads(), p, o, z) == at4(f, ctx, p, z / width, o, z % width));
}

/// Attention over the text tokens followed by the image tokens: token `o` gets the
/// values of all of them, averaged under its own query.
#[verifier::spinoff_prover]
proof fn joint_attention_reads(
    f: Functions,
    cfg: &MmDitConfig,
    w: &DoubleStreamBlockWeights,
    c: Tensor,
    txt: Tensor,
    img: Tensor,
    b: int,
    t: int,
    s: int,
    p: int,
    o: int,
    z: int,
)
    requires
        cfg.addressable(b, t + s),
        t >= 1,
        s >= 1,
        w.text.sized(cfg),
        w.image.sized(cfg),
        has(c, seq![b, cfg.dim as int]),
        has(txt, seq![b, t, cfg.dim as int]),
        has(img, seq![b, s, cfg.dim as int]),
        0 <= p < b,
        0 <= o < t + s,
        0 <= z < cfg.dim,
    ensures
        ({
            let all = joint_attention(
                cfg,
                stream_part(cfg, &w.text, c, txt, 0),
                stream_part(cfg, &w.text, c, txt, 1),
                stream_part(cfg, &w.text, c, txt, 2),
                stream_part(cfg, &w.image, c, img, 0),
                stream_part(cfg, &w.image, c, img, 1),
                stream_part(cfg, &w.image, c, img, 2),
            );
            at3(f, all, p, o, z) == joint_row(
                f,
                cfg,
                w,
                row2(f, c, p),
                sample(f, txt, p),
                sample(f, img, p),
                t,
                s,
                o,
            )(z)
        }),
{
    broadcast use extents;

    let heads = cfg.num_heads as int;
    let width = cfg.width();
    let d = cfg.dim as int;
    assert(width >= 1) by (nonlinear_arith)
        requires
            heads * width == d,
            d >= 1,
            heads >= 1,
    ;
    let cr = row2(f, c, p);
    let (ts, is) = (sample(f, txt, p), sample(f, img, p));
    let q = joined_part(f, cfg, w, c, txt, img, 0, b, t, s, p);
    let k = joined_part(f, cfg, w, c, txt, img, 1, b, t, s, p);
    let v = joined_part(f, cfg, w, c, txt, img, 2, b, t, s, p);
    attended_reads(
        f,
        q,
        k,
        v,
        |i: int| joint_part(f, cfg, w, cr, ts, is, t, 0, i),
        |i: int| joint_part(f, cfg, w, cr, ts, is, t, 1, i),
        |i: int| joint_part(f, cfg, w, cr, ts, is, t, 2, i),
        b,
        heads,
        t + s,
        width,
        p,
        o,
        z,
    );
}

/// One kind of projections of text and image tokens, one after the other.
proof fn joined_part(
    f: Functions,
    cfg: &MmDitConfig,
    w: &DoubleStreamBlockWeights,
    c: Tensor,
    txt: Tensor,
    img: Tensor,
    part: int,
    b: int,
    t: int,
    s: int,
    p: int,
) -> (r: Tensor)
    requires
        cfg.addressable(b, t + s),
        t >= 1,
        s >= 1,
        w.text.sized(cfg),
        w.image.sized(cfg),
        has(c, seq![b, cfg.dim as int]),
        has(txt, seq![b, t, cfg.dim as int]),
        has(img, seq![b, s, cfg.dim as int]),
        0 <= part < 3,
        0 <= p < b,
    ensures
        r == stream_part(cfg, &w.text, c, txt, part).concat(stream_part(cfg, &w.image, c, img, part), 2),
        has(r, seq![b, cfg.num_heads as int, t + s, cfg.width()]),
        forall|g: int, i: int, e: int|
            0 <= g < cfg.num_heads && 0 <= i < t + s && 0 <= e < cfg.width() ==> #[trigger] at4(f, r, p, g, i, e)
                == joint_part(
                f,
                cfg,
                w,
                row2(f, c, p),
                sample(f, txt, p),
                sample(f, img, p),
                t,
                part,
                i,
            )(g * cfg.width() + e),
{
    broadcast use {extents, readings};

    let heads = cfg.num_heads as int;
    let width = cfg.width();
    stream_part_has(cfg, &w.text, c, txt, part, b, t);
    stream_part_has(cfg, &w.image, c, img, part, b, s);
    let (x, y) = (stream_part(cfg, &w.text, c, txt, part), stream_part(cfg, &w.image, c, img, part));
    let r = x.concat(y, 2);
    assert(r.dims =~= seq![b, heads, t + s, width]);
    assert forall|g: int, i: int, e: int| 0 <= g < heads && 0 <= i < t + s && 0 <= e < width implies #[trigger] at4(
        f,
        r,
        p,
        g,
        i,
        e,
    ) == joint_part(
        f,
        cfg,
        w,
        row2(f, c, p),
        sample(f, txt, p),
        sample(f, img, p),
        t,
        part,
        i,
    )(g * width + e) by {
        if i < t {
            stream_part_reads(f, cfg, &w.text, c, txt, part, b, t, p, g, i, e);
            assert(at4(f, r, p, g, i, e) == at4(f, x, p, g, i, e));
        } else {
            stream_part_reads(f, cfg, &w.image, c, img, part, b, s, p, g, i - t, e);
            assert(at4(f, r, p, g, i, e) == at4(f, y, p, g, i - t, e));
        }
    }
    r
}

/// A double-stream block, number by number. Text token `i` and image token `i` each
/// get what they attend to under their own query, over all text and image tokens;
/// image token `i` is token `t + i` of these.
#[verifier::spinoff_prover]
pub proof fn double_stream_reads(
    f: Functions,
    cfg: &MmDitConfig,
    w: &DoubleStreamBlockWeights,
    c: Tensor,
    txt: Tensor,
    img: Tensor,
    b: int,
    t: int,
    s: int,
    p: int,
    i: int,
    j: int,
)
    requires
        cfg.addressable(b, t + s),
        t >= 1,
        s >= 1,
        w.text.sized(cfg),
        w.image.sized(cfg),
        has(c, seq![b, cfg.dim as int]),
        has(txt, seq![b, t, cfg.dim as int]),
        has(img, seq![b, s, cfg.dim as int]),
        0 <= p < b,
        0 <= j < cfg.dim,
    ensures
        0 <= i < t ==> at3(f, double_stream(cfg, w, c, txt, img).0, p, i, j) == updated_row(
            f,
            cfg,
            &w.text,
            row2(f, c, p),
            row3(f, txt, p, i),
            joint_row(f, cfg, w, row2(f, c, p), sample(f, txt, p), sample(f, img, p), t, s, i),
            j,
        ),
        0 <= i < s ==> at3(f, double_stream(cfg, w, c, txt, img).1, p, i, j) == updated_row(
            f,
            cfg,
            &w.image,
            row2(f, c, p),
            row3(f, img, p, i),
            joint_row(f, cfg, w, row2(f, c, p), sample(f, txt, p), sample(f, img, p), t, s, t + i),
            j,
        ),
{
    broadcast use {extents, readings};

    let d = cfg.dim as int;
    stream_part_has(cfg, &w.text, c, txt, 0, b, t);
    stream_part_has(cfg, &w.text, c, txt, 1, b, t);
    stream_part_has(cfg, &w.text, c, txt, 2, b, t);
    stream_part_has(cfg, &w.image, c, img, 0, b, s);
    stream_part_has(cfg, &w.image, c, img, 1, b, s);
    stream_part_has(cfg, &w.image, c, img, 2, b, s);
    let tq = stream_part(cfg, &w.text, c, txt, 0);
    let tk = stream_part(cfg, &w.text, c, txt, 1);
    let tv = stream_part(cfg, &w.text, c, txt, 2);
    let iq = stream_part(cfg, &w.image, c, img, 0);
    let ik = stream_part(cfg, &w.image, c, img, 1);
    let iv = stream_part(cfg, &w.image, c, img, 2);
    joint_attention_has(cfg, tq, tk, tv, iq, ik, iv, b, t, s);
    let all = joint_attention(cfg, tq, tk, tv, iq, ik, iv);
    let (front, back) = (all.narrow(1, 0, t), all.narrow(1, t, s));
    assert(front.dims =~= seq![b, t, d]);
    assert(back.dims =~= seq![b, s, d]);
    let cr = row2(f, c, p);
    let (ts, is) = (sample(f, txt, p), sample(f, img, p));
    if 0 <= i < t {
        let ar = joint_row(f, cfg, w, cr, ts, is, t, s, i);
        assert forall|z: int| 0 <= z < d implies #[trigger] at3(f, front, p, i, z) == ar(z) by {
            joint_attention_reads(f, cfg, w, c, txt, img, b, t, s, p, i, z);
            assert(at3(f, front, p, i, z) == at3(f, all, p, i + 0, z));
        }
        stream_update_reads(f, cfg, &w.text, c, txt, front, ar, b, t, p, i, j);
    }
    if 0 <= i < s {
        let ar = joint_row(f, cfg, w, cr, ts, is, t, s, t + i);
        assert forall|z: int| 0 <= z < d implies #[trigger] at3(f, back, p, i, z) == ar(z) by {
            joint_attention_reads(f, cfg, w, c, txt, img, b, t, s, p, t + i, z);
            assert(at3(f, back, p, i, z) == at3(f, all, p, i + t, z));
        }
        stream_update_reads(f, cfg, &w.image, c, img, back, ar, b, s, p, i, j);
    }
}

/// A single-stream block, number by number: every token gets what it attends to
/// among all tokens under its own query.
pub proof fn single_stream_reads(
    f: Functions,
    cfg: &MmDitConfig,
    w: &SingleStreamBlockWeights,
    c: Tensor,
    x: Tensor,
    b: int,
    s: int,
    p: int,
    i: int,
    j: int,
)
    requires
        cfg.addressable(b, s),
        w.stream().sized(cfg),
        has(c, seq![b, cfg.dim as int]),
        has(x, seq![b, s, cfg.dim as int]),
        0 <= p < b,
        0 <= i < s,
        0 <= j < cfg.dim,
    ensures
        ({
            let cr = row2(f, c, p);
            let part = |k: int| |o: int| part_row(f, cfg, &w.stream(), cr, row3(f, x, p, o), k);
            at3(f, single_stream(cfg, w, c, x), p, i, j) == updated_row(
                f,
                cfg,
                &w.stream(),
                cr,
                row3(f, x, p, i),
                |k: int| attended_row(f, part(0)(i), part(1), part(2), s, cfg.width(), k),
                j,
            )
        }),
{
    broadcast use extents;

    let d = cfg.dim as int;
    let heads = cfg.num_heads as int;
    let width = cfg.width();
    assert(width >= 1) by (nonlinear_arith)
        requires
            heads * width == d,
            d >= 1,
            heads >= 1,
    ;
    let v = w.stream();
    let cr = row2(f, c, p);
    let part = |k: int| |o: int| part_row(f, cfg, &v, cr, row3(f, x, p, o), k);
    stream_part_has(cfg, &v, c, x, 0, b, s);
    stream_part_has(cfg, &v, c, x, 1, b, s);
    stream_part_has(cfg, &v, c, x, 2, b, s);
    let q = stream_part(cfg, &v, c, x, 0);
    let k = stream_part(cfg, &v, c, x, 1);
    let u = stream_part(cfg, &v, c, x, 2);
    full_attention_has(q, k, u, inv_sqrt64(width as usize), b, heads, s, width);
    let attn = attended(q, k, u, width as usize);
    assert(has(attn, seq![b, s, d]));
    let ar = |z: int| attended_row(f, part(0)(i), part(1), part(2), s, width, z);
    assert forall|g: int, o: int, e: int| 0 <= g < heads && 0 <= o < s && 0 <= e < width implies #[trigger] at4(
        f,
        q,
        p,
        g,
        o,
        e,
    ) == part(0)(o)(g * width + e) by {
        stream_part_reads(f, cfg, &v, c, x, 0, b, s, p, g, o, e);
    }
    assert forall|g: int, o: int, e: int| 0 <= g < heads && 0 <= o < s && 0 <= e < width implies #[trigger] at4(
        f,
        k,
        p,
        g,
        o,
        e,
    ) == part(1)(o)(g * width + e) by {
        stream_part_reads(f, cfg, &v, c, x, 1, b, s, p, g, o, e);
    }
    assert forall|g: int, o: int, e: int| 0 <= g < heads && 0 <= o < s && 0 <= e < width implies #[trigger] at4(
        f,
        u,
        p,
        g,
        o,
        e,
    ) == part(2)(o)(g * width + e) by {
        stream_part_reads(f, cfg, &v, c, x, 2, b, s, p, g, o, e);
    }
    assert forall|z: int| 0 <= z < d implies #[trigger] at3(f, attn, p, i, z) == ar(z) by {
        attended_reads(f, q, k, u, part(0), part(1), part(2), b, heads, s, width, p, i, z);
    }
    stream_update_reads(f, cfg, &v, c, x, attn, ar, b, s, p, i, j);
}

/// The numbers under two exchanged indices add up to the same.
proof fn sum_exchanged(n: int, g: Row, h: Row, a: int, b: int)
    requires
        0 <= a < b < n,
        forall|k: int| 0 <= k < n && k != a && k != b ==> #[trigger] g(k) == h(k),
        g(a) == h(b),
        g(b) == h(a),
    ensures
        sum(n, g) == sum(n, h),
    decreases n,
{
    if b == n - 1 {
        let e = |k: int|
            if k == a {
                h(a)
            } else {
                g(k)
            };
        one_changed(n - 1, g, e, a);
        sums_alike(n - 1, e, h);
    } else {
        sum_exchanged(n - 1, g, h, a, b);
        assert(g(n - 1) == h(n - 1));
    }
}

proof fn one_changed(n: int, g: Row, h: Row, a: int)
    requires
        0 <= a < n,
        forall|k: int| 0 <= k < n && k != a ==> #[trigger] g(k) == h(k),
    ensures
        sum(n, g) - g(a) == sum(n, h) - h(a),
    decreases n,
{
    if a == n - 1 {
        sums_alike(n - 1, g, h);
    } else {
        one_changed(n - 1, g, h, a);
        assert(g(n - 1) == h(n - 1));
    }
}

/// The token that takes the place of token `o` where `a` and `b` are exchanged.
pub open spec fn exchanged(o: int, a: int, b: int) -> int {
    if o == a {
        b
    } else if o == b {
        a
    } else {
        o
    }
}

/// What a token attends to does not depend on the order of the others.
proof fn attended_exchanged(
    f: Functions,
    q: Row,
    k1: Rows,
    v1: Rows,
    k2: Rows,
    v2: Rows,
    n: int,
    width: int,
    a: int,
    b: int,
    z: int,
)
    requires
        0 <= a < b < n,
        forall|o: int| 0 <= o < n ==> #[trigger] k1(o) == k2(exchanged(o, a, b)),
        forall|o: int| 0 <= o < n ==> #[trigger] v1(o) == v2(exchanged(o, a, b)),
    ensures
        attended_row(f, q, k1, v1, n, width, z) == attended_row(f, q, k2, v2, n, width, z),
{
    let none = |o: int| false;
    let scl = 1real / (f.sqrt)(width as real);
    let s1 = |o: int| dot(width, headed(q, z / width, width), headed(k1(o), z / width, width)) * scl;
    let s2 = |o: int| dot(width, headed(q, z / width, width), headed(k2(o), z / width, width)) * scl;
    let x1 = |o: int| v1(o)(z);
    let x2 = |o: int| v2(o)(z);
    let w1 = |o: int| weight(f, s1, none, o);
    let w2 = |o: int| weight(f, s2, none, o);
    assert forall|o: int| 0 <= o < n implies #[trigger] w1(o) == w2(exchanged(o, a, b)) by {
        assert(k1(o) == k2(exchanged(o, a, b)));
    }
    assert(w1(a) == w2(b) && w1(b) == w2(a));
    assert forall|o: int| 0 <= o < n && o != a && o != b implies #[trigger] w1(o) == w2(o) by {
        assert(w1(o) == w2(exchanged(o, a, b)));
    }
    sum_exchanged(n, w1, w2, a, b);
    assert(sum(n, |k: int| weight(f, s1, none, k)) == sum(n, w1));
    assert(sum(n, |k: int| weight(f, s2, none, k)) == sum(n, w2));
    let y1 = |o: int| share(f, s1, none, n, o) * x1(o);
    let y2 = |o: int| share(f, s2, none, n, o) * x2(o);
    assert forall|o: int| 0 <= o < n implies #[trigger] y1(o) == y2(exchanged(o, a, b)) by {
        assert(w1(o) == w2(exchanged(o, a, b)));
        assert(v1(o) == v2(exchanged(o, a, b)));
    }
    assert(y1(a) == y2(b) && y1(b) == y2(a));
    assert forall|o: int| 0 <= o < n && o != a && o != b implies #[trigger] y1(o) == y2(o) by {
        assert(y1(o) == y2(exchanged(o, a, b)));
    }
    sum_exchanged(n, y1, y2, a, b);
}

/// Exchanging two image tokens exchanges them in the image result of a block, and
/// leaves the text result as it is. Any order of the image tokens comes about in
/// this way.
#[verifier::spinoff_prover]
pub proof fn image_tokens_may_be_exchanged(
    f: Functions,
    cfg: &MmDitConfig,
    w: &DoubleStreamBlockWeights,
    c: Tensor,
    txt: Tensor,
    img: Tensor,
    other: Tensor,
    b: int,
    t: int,
    s: int,
    p: int,
    x: int,
    y: int,
    i: int,
    j: int,
)
    requires
        cfg.addressable(b, t + s),
        t >= 1,
        s >= 1,
        w.text.sized(cfg),
        w.image.sized(cfg),
        has(c, seq![b, cfg.dim as int]),
        has(txt, seq![b, t, cfg.dim as int]),
        has(img, seq![b, s, cfg.dim as int]),
        has(other, seq![b, s, cfg.dim as int]),
        0 <= p < b,
        0 <= j < cfg.dim,
        0 <= x < y < s,
        forall|o: int| 0 <= o < s ==> #[trigger] row3(f, other, p, o) == row3(f, img, p, exchanged(o, x, y)),
    ensures
        0 <= i < t ==> at3(f, double_stream(cfg, w, c, txt, other).0, p, i, j) == at3(
            f,
            double_stream(cfg, w, c, txt, img).0,
            p,
            i,
            j,
        ),
        0 <= i < s ==> at3(f, double_stream(cfg, w, c, txt, other).1, p, i, j) == at3(
            f,
            double_stream(cfg, w, c, txt, img).1,
            p,
            exchanged(i, x, y),
            j,
        ),
{
    let cr = row2(f, c, p);
    let ts = sample(f, txt, p);
    let (is, os) = (sample(f, img, p), sample(f, other, p));
    let n = t + s;
    let (a, e) = (t + x, t + y);
    let part = |k: int| |o: int| joint_part(f, cfg, w, cr, ts, is, t, k, o);
    let moved = |k: int| |o: int| joint_part(f, cfg, w, cr, ts, os, t, k, o);
    assert forall|k: int, o: int| 0 <= o < n implies #[trigger] moved(k)(o) == part(k)(exchanged(o, a, e)) by {
        if o >= t {
            assert(row3(f, other, p, o - t) == row3(f, img, p, exchanged(o - t, x, y)));
            assert(exchanged(o, a, e) == t + exchanged(o - t, x, y));
        }
    }
    let (k1, v1) = (
        |z: int| joint_part(f, cfg, w, cr, ts, os, t, 1, z),
        |z: int| joint_part(f, cfg, w, cr, ts, os, t, 2, z),
    );
    let (k2, v2) = (
        |z: int| joint_part(f, cfg, w, cr, ts, is, t, 1, z),
        |z: int| joint_part(f, cfg, w, cr, ts, is, t, 2, z),
    );
    assert forall|o: int| 0 <= o < n implies #[trigger] k1(o) == k2(exchanged(o, a, e)) by {
        assert(moved(1)(o) == part(1)(exchanged(o, a, e)));
    }
    assert forall|o: int| 0 <= o < n implies #[trigger] v1(o) == v2(exchanged(o, a, e)) by {
        assert(moved(2)(o) == part(2)(exchanged(o, a, e)));
    }
    if 0 <= i < t {
        double_stream_reads(f, cfg, w, c, txt, img, b, t, s, p, i, j);
        double_stream_reads(f, cfg, w, c, txt, other, b, t, s, p, i, j);
        let (r1, r2) = (
            joint_row(f, cfg, w, cr, ts, os, t, s, i),
            joint_row(f, cfg, w, cr, ts, is, t, s, i),
        );
        let q = joint_part(f, cfg, w, cr, ts, is, t, 0, i);
        assert forall|z: int| #[trigger] r1(z) == r2(z) by {
            attended_exchanged(f, q, k1, v1, k2, v2, n, cfg.width(), a, e, z);
        }
        assert(r1 =~= r2);
    }
    if 0 <= i < s {
        let m = exchanged(i, x, y);
        double_stream_reads(f, cfg, w, c, txt, img, b, t, s, p, m, j);
        double_stream_reads(f, cfg, w, c, txt, other, b, t, s, p, i, j);
        assert(row3(f, other, p, i) == row3(f, img, p, m));
        let (r1, r2) = (
            joint_row(f, cfg, w, cr, ts, os, t, s, t + i),
            joint_row(f, cfg, w, cr, ts, is, t, s, t + m),
        );
        let q = joint_part(f, cfg, w, cr, ts, is, t, 0, t + m);
        assert(joint_part(f, cfg, w, cr, ts, os, t, 0, t + i) == q);
        assert forall|z: int| #[trigger] r1(z) == r2(z) by {
            attended_exchanged(f, q, k1, v1, k2, v2, n, cfg.width(), a, e, z);
        }
        assert(r1 =~= r2);
    }
}

} // verus!
