//! What the joint transformers compute from their inputs to their outputs, number
//! by number.

use crate::extents::{broadcast_to_has, constant_has, extents, has, products, reshape_has};
use crate::formulas::{affine_row, Rows};
use crate::lazy::Tensor;
use crate::lazy_mmdit::{
    along, along_has, attended, biased, conditioning, conditioning_has, context_part,
    double_streams_have, double_streams_value, final_tokens, frequencies, halves_have,
    joint_attention, joint_attention_has, last_joint, modulated, modulated_has, modulation,
    position_crop, position_crop_has, projected_has, single_streams_have, single_streams_value,
    stream_part, stream_part_has, timestep_features, ConditioningWeights,
    ContextQkvOnlyBlockWeights, ContextQkvOnlyContextWeights, DoubleStreamBlockWeights,
    FinalLayerWeights, MmDitConfig, MmDitModel,
};
use crate::meaning::{at, at1, at2, at3, at4, elements, number, row3, silu, standard, under, Functions, Row};
use crate::mmdit_meaning::{
    along_reads, attended_reads, attended_row, biased_reads3, double_stream_reads, joint_row, part_row, sample,
    single_stream_reads, stream_part_reads, stream_update_reads, updated_row,
};
use crate::readings::{
    mapped, mapped_alike, numbers_zero_one, place1, place2, place3, place4, read_constant,
    read_reshape, readings, row2,
};
use crate::scalar::Scalar;
use vstd::prelude::*;

verus! {

/// Feature `j` of modulation vector `part` of two.
pub open spec fn paired_modulator(
    f: Functions,
    w: Seq<Scalar>,
    b: Seq<Scalar>,
    c: Row,
    d: int,
    part: int,
    j: int,
) -> real {
    affine_row(f, |k: int| silu(f, c(k)), w, b, d, 2 * d, part * d + j)
}

/// Feature `j` of a token with mean zero and variance one, times one plus the second
/// of two modulation vectors, plus the first.
pub open spec fn paired_row(
    f: Functions,
    w: Seq<Scalar>,
    b: Seq<Scalar>,
    c: Row,
    x: Row,
    d: int,
    eps: Scalar,
    j: int,
) -> real {
    standard(f, x, d, number(f, eps), j) * (paired_modulator(f, w, b, c, d, 1, j) + 1real) + paired_modulator(
        f,
        w,
        b,
        c,
        d,
        0,
        j,
    )
}

/// The query (0), key (1) or value (2) of a context token in the last block.
pub open spec fn context_row(
    f: Functions,
    cfg: &MmDitConfig,
    w: &ContextQkvOnlyContextWeights,
    c: Row,
    x: Row,
    part: int,
) -> Row {
    let d = cfg.dim as int;
    |j: int|
        affine_row(
            f,
            |k: int| paired_row(f, w.adaln_proj@, w.adaln_bias@, c, x, d, cfg.eps, k),
            w.qkv_proj@,
            w.qkv_bias@,
            d,
            3 * d,
            part * d + j,
        )
}

/// The query, key or value of token `o` of the context tokens followed by the image
/// tokens, `t` of which are context.
pub open spec fn last_part(
    f: Functions,
    cfg: &MmDitConfig,
    w: &ContextQkvOnlyBlockWeights,
    c: Row,
    txt: Rows,
    img: Rows,
    t: int,
    part: int,
    o: int,
) -> Row {
    if o < t {
        context_row(f, cfg, &w.context, c, txt(o), part)
    } else {
        part_row(f, cfg, &w.image, c, img(o - t), part)
    }
}

proof fn biased_reads2(
    f: Functions,
    x: Tensor,
    r: Row,
    w: Seq<Scalar>,
    b: Seq<Scalar>,
    n: int,
    o: int,
    bs: int,
    p: int,
    j: int,
)
    requires
        has(x, seq![bs, n]),
        w.len() == n * o,
        n >= 1,
        1 <= o <= usize::MAX,
        n * o <= usize::MAX,
        b.len() == o,
        0 <= p < bs,
        0 <= j < o,
        forall|k: int| 0 <= k < n ==> #[trigger] at2(f, x, p, k) == r(k),
    ensures
        has(biased(x, w, b, n, o), seq![bs, o]),
        at2(f, biased(x, w, b, n, o), p, j) == affine_row(f, r, w, b, n, o, j),
{
    broadcast use {extents, readings};

    let y = x.linear(w, n, o);
    assert forall|k: int| 0 <= k < n implies #[trigger] row2(f, x, p)(k) == r(k) by {
        assert(at2(f, x, p, k) == r(k));
    }
    mapped_alike(f, row2(f, x, p), r, w, n, o, j);
    assert(at2(f, y, p, j) == mapped(f, row2(f, x, p), w, n, o, j));
}

proof fn paired_modulator_reads(
    f: Functions,
    c: Tensor,
    w: Seq<Scalar>,
    bias: Seq<Scalar>,
    d: int,
    b: int,
    part: int,
    p: int,
    j: int,
)
    requires
        has(c, seq![b, d]),
        d >= 1,
        2 * d <= usize::MAX,
        d * (2 * d) <= usize::MAX,
        w.len() == d * (2 * d),
        bias.len() == 2 * d,
        0 <= part < 2,
        0 <= p < b,
        0 <= j < d,
    ensures
        at2(f, modulation(c, w, bias, d, 2).chunk(1, 2, part), p, j) == paired_modulator(
            f,
            w,
            bias,
            row2(f, c, p),
            d,
            part,
            j,
        ),
{
    broadcast use {extents, readings};

    let z = c.silu();
    let want = |k: int| silu(f, row2(f, c, p)(k));
    assert forall|k: int| 0 <= k < d implies #[trigger] at2(f, z, p, k) == want(k) by {
        assert(at2(f, z, p, k) == silu(f, at2(f, c, p, k)));
    }
    let k0 = part * d + j;
    assert(0 <= k0 < 2 * d) by (nonlinear_arith)
        requires
            0 <= part < 2,
            0 <= j < d,
            k0 == part * d + j,
    ;
    biased_reads2(f, z, want, w, bias, d, 2 * d, b, p, k0);
    let m = modulation(c, w, bias, d, 2);
    halves_have(c, w, bias, d, b, part);
    assert(at2(f, m.chunk(1, 2, part), p, j) == at2(f, m, p, j + part * (m.dims[1] / 2)));
}

proof fn paired_row_reads(
    f: Functions,
    c: Tensor,
    x: Tensor,
    w: Seq<Scalar>,
    bias: Seq<Scalar>,
    eps: Scalar,
    d: int,
    b: int,
    s: int,
    p: int,
    i: int,
    j: int,
)
    requires
        has(c, seq![b, d]),
        has(x, seq![b, s, d]),
        d >= 1,
        b >= 1,
        b * d <= usize::MAX,
        2 * d <= usize::MAX,
        d * (2 * d) <= usize::MAX,
        w.len() == d * (2 * d),
        bias.len() == 2 * d,
        0 <= p < b,
        0 <= i < s,
        0 <= j < d,
    ensures
        ({
            let m = modulation(c, w, bias, d, 2);
            let y = modulated(x.layer_norm_last_dim(eps), m.chunk(1, 2, 1), m.chunk(1, 2, 0));
            &&& has(y, seq![b, s, d])
            &&& at3(f, y, p, i, j) == paired_row(f, w, bias, row2(f, c, p), row3(f, x, p, i), d, eps, j)
        }),
{
    broadcast use {extents, readings};

    let n = x.layer_norm_last_dim(eps);
    let m = modulation(c, w, bias, d, 2);
    let (sc, sh) = (m.chunk(1, 2, 1), m.chunk(1, 2, 0));
    halves_have(c, w, bias, d, b, 0);
    halves_have(c, w, bias, d, b, 1);
    modulated_has(n, sc, sh, b, s, d);
    along_has(sc, n, b, s, d);
    along_has(sh, n, b, s, d);
    along_reads(f, sc, n, b, s, d, p, i, j);
    along_reads(f, sh, n, b, s, d, p, i, j);
    paired_modulator_reads(f, c, w, bias, d, b, 0, p, j);
    paired_modulator_reads(f, c, w, bias, d, b, 1, p, j);
    numbers_zero_one(f);
    let one = along(sc, n).add_scalar(crate::scalar::one64());
    assert(at3(f, one, p, i, j) == at3(f, along(sc, n), p, i, j) + 1real);
    let y = n.mul(one);
    assert(at3(f, y, p, i, j) == at3(f, n, p, i, j) * at3(f, one, p, i, j));
    assert(at3(f, y.add(along(sh, n)), p, i, j) == at3(f, y, p, i, j) + at3(f, along(sh, n), p, i, j));
}

/// The final tokens, number by number.
pub proof fn final_tokens_read(
    f: Functions,
    x: Tensor,
    c: Tensor,
    w: &FinalLayerWeights,
    d: int,
    n: int,
    b: int,
    s: int,
    p: int,
    i: int,
    j: int,
)
    requires
        has(c, seq![b, d]),
        has(x, seq![b, s, d]),
        d >= 1,
        b >= 1,
        b * d <= usize::MAX,
        2 * d <= usize::MAX,
        d * (2 * d) <= usize::MAX,
        1 <= n <= usize::MAX,
        d * n <= usize::MAX,
        w.adaln_proj@.len() == d * (2 * d),
        w.adaln_bias@.len() == 2 * d,
        w.linear@.len() == d * n,
        w.linear_bias@.len() == n,
        0 <= p < b,
        0 <= i < s,
        0 <= j < n,
    ensures
        at3(f, final_tokens(x, c, w, d, n), p, i, j) == affine_row(
            f,
            |k: int|
                paired_row(
                    f,
                    w.adaln_proj@,
                    w.adaln_bias@,
                    row2(f, c, p),
                    row3(f, x, p, i),
                    d,
                    Scalar::F64(0x3EB0_C6F7_A0B5_ED8D),
                    k,
                ),
            w.linear@,
            w.linear_bias@,
            d,
            n,
            j,
        ),
{
    let eps = Scalar::F64(0x3EB0_C6F7_A0B5_ED8D);
    let m = modulation(c, w.adaln_proj@, w.adaln_bias@, d, 2);
    let y = modulated(x.layer_norm_last_dim(eps), m.chunk(1, 2, 1), m.chunk(1, 2, 0));
    let want = |k: int| paired_row(f, w.adaln_proj@, w.adaln_bias@, row2(f, c, p), row3(f, x, p, i), d, eps, k);
    paired_row_reads(f, c, x, w.adaln_proj@, w.adaln_bias@, eps, d, b, s, p, i, 0);
    assert forall|k: int| 0 <= k < d implies #[trigger] at3(f, y, p, i, k) == want(k) by {
        paired_row_reads(f, c, x, w.adaln_proj@, w.adaln_bias@, eps, d, b, s, p, i, k);
    }
    biased_reads3(f, y, want, w.linear@, w.linear_bias@, d, n, b, s, p, i, j);
}

/// Queries, keys and values of the context in the last block, number by number.
proof fn context_part_reads(
    f: Functions,
    cfg: &MmDitConfig,
    w: &ContextQkvOnlyContextWeights,
    c: Tensor,
    x: Tensor,
    part: int,
    b: int,
    s: int,
    p: int,
    g: int,
    i: int,
    k: int,
)
    requires
        cfg.addressable(b, s),
        w.adaln_proj@.len() == cfg.dim * (2 * cfg.dim),
        w.adaln_bias@.len() == 2 * cfg.dim,
        w.qkv_proj@.len() == cfg.dim * (3 * cfg.dim),
        w.qkv_bias@.len() == 3 * cfg.dim,
        has(c, seq![b, cfg.dim as int]),
        has(x, seq![b, s, cfg.dim as int]),
        0 <= part < 3,
        0 <= p < b,
        0 <= g < cfg.num_heads,
        0 <= i < s,
        0 <= k < cfg.width(),
    ensures
        has(context_part(cfg, w, c, x, part), seq![b, cfg.num_heads as int, s, cfg.width()]),
        at4(f, context_part(cfg, w, c, x, part), p, g, i, k) == context_row(
            f,
            cfg,
            w,
            row2(f, c, p),
            row3(f, x, p, i),
            part,
        )(g * cfg.width() + k),
{
    broadcast use {extents, readings};

    let d = cfg.dim as int;
    let heads = cfg.num_heads as int;
    let width = cfg.width();
    assert(d * (3 * d) <= d * (6 * d) && d * (2 * d) <= d * (6 * d)) by (nonlinear_arith)
        requires
            d >= 1,
    ;
    let md = modulation(c, w.adaln_proj@, w.adaln_bias@, d, 2);
    let m = modulated(x.layer_norm_last_dim(cfg.eps), md.chunk(1, 2, 1), md.chunk(1, 2, 0));
    let xr = row3(f, x, p, i);
    let mr = |z: int| paired_row(f, w.adaln_proj@, w.adaln_bias@, row2(f, c, p), xr, d, cfg.eps, z);
    assert forall|z: int| 0 <= z < d implies #[trigger] at3(f, m, p, i, z) == mr(z) by {
        paired_row_reads(f, c, x, w.adaln_proj@, w.adaln_bias@, cfg.eps, d, b, s, p, i, z);
    }
    paired_row_reads(f, c, x, w.adaln_proj@, w.adaln_bias@, cfg.eps, d, b, s, p, i, 0);
    projected_has(m, w.qkv_proj@, w.qkv_bias@, heads, width, part, b, s);
    let j = g * width + k;
    assert(0 <= j < d && 0 <= part * d + j < 3 * d) by (nonlinear_arith)
        requires
            0 <= g < heads,
            0 <= k < width,
            heads * width == d,
            0 <= part < 3,
            j == g * width + k,
    ;
    let qkv = biased(m, w.qkv_proj@, w.qkv_bias@, d, 3 * d);
    biased_reads3(f, m, mr, w.qkv_proj@, w.qkv_bias@, d, 3 * d, b, s, p, i, part * d + j);
    assert(part * d + d <= 3 * d) by (nonlinear_arith)
        requires
            0 <= part < 3,
            d >= 1,
    ;
    let y = qkv.narrow(2, part * d, d);
    assert(y.dims =~= seq![b, s, d]);
    assert(at3(f, y, p, i, j) == at3(f, qkv, p, i, j + part * d));
    assert(at4(f, y.split_heads(heads, width), p, g, i, k) == at3(f, y, p, i, j));
}

proof fn joined_context(
    f: Functions,
    cfg: &MmDitConfig,
    w: &ContextQkvOnlyBlockWeights,
    c: Tensor,
    txt: Tensor,
    img: Tensor,
    part: int,
    b: int,
    t: int,
    s: int,
    p: int,
) -> (r: Tensor)
    requires
        cfg.addressable(b, t + s),
        t >= 1,
        s >= 1,
        w.image.sized(cfg),
        w.context.adaln_proj@.len() == cfg.dim * (2 * cfg.dim),
        w.context.adaln_bias@.len() == 2 * cfg.dim,
        w.context.qkv_proj@.len() == cfg.dim * (3 * cfg.dim),
        w.context.qkv_bias@.len() == 3 * cfg.dim,
        has(c, seq![b, cfg.dim as int]),
        has(txt, seq![b, t, cfg.dim as int]),
        has(img, seq![b, s, cfg.dim as int]),
        0 <= part < 3,
        0 <= p < b,
        cfg.width() >= 1,
    ensures
        r == context_part(cfg, &w.context, c, txt, part).concat(stream_part(cfg, &w.image, c, img, part), 2),
        has(context_part(cfg, &w.context, c, txt, part), seq![b, cfg.num_heads as int, t, cfg.width()]),
        has(stream_part(cfg, &w.image, c, img, part), seq![b, cfg.num_heads as int, s, cfg.width()]),
        has(r, seq![b, cfg.num_heads as int, t + s, cfg.width()]),
        forall|g: int, i: int, e: int|
            0 <= g < cfg.num_heads && 0 <= i < t + s && 0 <= e < cfg.width() ==> #[trigger] at4(f, r, p, g, i, e)
                == last_part(
                f,
                cfg,
                w,
                row2(f, c, p),
                sample(f, txt, p),
                sample(f, img, p),
                t,
                part,
                i,
            )(g * cfg.width() + e),
{
    broadcast use {extents, readings};

    let heads = cfg.num_heads as int;
    let width = cfg.width();
    context_part_reads(f, cfg, &w.context, c, txt, part, b, t, p, 0, 0, 0);
    stream_part_has(cfg, &w.image, c, img, part, b, s);
    let (x, y) = (context_part(cfg, &w.context, c, txt, part), stream_part(cfg, &w.image, c, img, part));
    let r = x.concat(y, 2);
    assert(r.dims =~= seq![b, heads, t + s, width]);
    assert forall|g: int, i: int, e: int| 0 <= g < heads && 0 <= i < t + s && 0 <= e < width implies #[trigger] at4(
        f,
        r,
        p,
        g,
        i,
        e,
    ) == last_part(
        f,
        cfg,
        w,
        row2(f, c, p),
        sample(f, txt, p),
        sample(f, img, p),
        t,
        part,
        i,
    )(g * width + e) by {
        if i < t {
            context_part_reads(f, cfg, &w.context, c, txt, part, b, t, p, g, i, e);
            assert(at4(f, r, p, g, i, e) == at4(f, x, p, g, i, e));
        } else {
            stream_part_reads(f, cfg, &w.image, c, img, part, b, s, p, g, i - t, e);
            assert(at4(f, r, p, g, i, e) == at4(f, y, p, g, i - t, e));
        }
    }
    r
}

/// The last joint block, number by number: image token `i` gets what it attends to
/// under its own query among all context and image tokens.
#[verifier::spinoff_prover]
pub proof fn last_joint_reads(
    f: Functions,
    cfg: &MmDitConfig,
    w: &ContextQkvOnlyBlockWeights,
    c: Tensor,
    txt: Tensor,
    img: Tensor,
    b: int,
    t: int,
    s: int,
    p: int,
    i: int,
    j: int,
)
    requires
        cfg.addressable(b, t + s),
        t >= 1,
        s >= 1,
        w.image.sized(cfg),
        w.context.adaln_proj@.len() == cfg.dim * (2 * cfg.dim),
        w.context.adaln_bias@.len() == 2 * cfg.dim,
        w.context.qkv_proj@.len() == cfg.dim * (3 * cfg.dim),
        w.context.qkv_bias@.len() == 3 * cfg.dim,
        has(c, seq![b, cfg.dim as int]),
        has(txt, seq![b, t, cfg.dim as int]),
        has(img, seq![b, s, cfg.dim as int]),
        0 <= p < b,
        0 <= i < s,
        0 <= j < cfg.dim,
    ensures
        ({
            let cr = row2(f, c, p);
            let (ts, is) = (sample(f, txt, p), sample(f, img, p));
            at3(f, last_joint(cfg, w, c, txt, img), p, i, j) == updated_row(
                f,
                cfg,
                &w.image,
                cr,
                row3(f, img, p, i),
                |k: int|
                    attended_row(
                        f,
                        last_part(f, cfg, w, cr, ts, is, t, 0, t + i),
                        |o: int| last_part(f, cfg, w, cr, ts, is, t, 1, o),
                        |o: int| last_part(f, cfg, w, cr, ts, is, t, 2, o),
                        t + s,
                        cfg.width(),
                        k,
                    ),
                j,
            )
        }),
{
    broadcast use {extents, readings};

    let d = cfg.dim as int;
    let heads = cfg.num_heads as int;
    let width = cfg.width();
    assert(width >= 1) by (nonlinear_arith)
        requires
            heads * width == d,
            d >= 1,
            heads >= 1,
    ;
    let cr = row2(f, c, p);
    let (ts, is) = (sample(f, txt, p), sample(f, img, p));
    let q = joined_context(f, cfg, w, c, txt, img, 0, b, t, s, p);
    let k = joined_context(f, cfg, w, c, txt, img, 1, b, t, s, p);
    let v = joined_context(f, cfg, w, c, txt, img, 2, b, t, s, p);
    let tq = context_part(cfg, &w.context, c, txt, 0);
    let tk = context_part(cfg, &w.context, c, txt, 1);
    let tv = context_part(cfg, &w.context, c, txt, 2);
    let iq = stream_part(cfg, &w.image, c, img, 0);
    let ik = stream_part(cfg, &w.image, c, img, 1);
    let iv = stream_part(cfg, &w.image, c, img, 2);
    joint_attention_has(cfg, tq, tk, tv, iq, ik, iv, b, t, s);
    let all = joint_attention(cfg, tq, tk, tv, iq, ik, iv);
    assert(all == attended(q, k, v, width as usize));
    let back = all.narrow(1, t, s);
    assert(back.dims =~= seq![b, s, d]);
    let qs = |o: int| last_part(f, cfg, w, cr, ts, is, t, 0, o);
    let ks = |o: int| last_part(f, cfg, w, cr, ts, is, t, 1, o);
    let vs = |o: int| last_part(f, cfg, w, cr, ts, is, t, 2, o);
    let ar = |z: int| attended_row(f, qs(t + i), ks, vs, t + s, width, z);
    assert forall|z: int| 0 <= z < d implies #[trigger] at3(f, back, p, i, z) == ar(z) by {
        attended_reads(f, q, k, v, qs, ks, vs, b, heads, t + s, width, p, t + i, z);
        assert(at3(f, back, p, i, z) == at3(f, all, p, i + t, z));
    }
    stream_update_reads(f, cfg, &w.image, c, img, back, ar, b, s, p, i, j);
}

/// Feature `j` of a timestep: cosines of the time under falling frequencies, then the
/// sines of the same.
pub open spec fn time_feature(f: Functions, time: real, n: int, j: int) -> real {
    let half = n / 2;
    let k = if j < half {
        j
    } else {
        j - half
    };
    let angle = time * (f.exp)(-(f.ln)(10000real) * k as real / half as real);
    if j < half {
        (f.cos)(angle)
    } else {
        (f.sin)(angle)
    }
}

/// Feature `j` of a vector through two maps with SiLU between them.
pub open spec fn lifted(
    f: Functions,
    x: Row,
    w1: Seq<Scalar>,
    b1: Seq<Scalar>,
    w2: Seq<Scalar>,
    b2: Seq<Scalar>,
    n: int,
    d: int,
    j: int,
) -> real {
    affine_row(f, |k: int| silu(f, affine_row(f, x, w1, b1, n, d, k)), w2, b2, d, d, j)
}

proof fn number_ten_thousand(f: Functions)
    ensures
        number(f, Scalar::F32(0x461C_4000)) == 10000real,
{
    vstd::arithmetic::power2::lemma2_to64();
    assert(crate::meaning::decoded(0x461C_4000, 23, 256, 127) == 10000real) by {
        assert(0x461C_4000int / 0x800000 == 140 && 0x461C_4000int % 0x800000 == 0x1C4000);
        assert(vstd::arithmetic::power2::pow2(10) == 1024);
        let p = 1024int as real;
        assert(0x9C4000int as real == 10000real * p);
        assert(10000real * p / p == 10000real) by (nonlinear_arith)
            requires
                p > 0real,
        ;
        assert(crate::meaning::scaled(0x9C4000, -10) == 10000real);
    }
}

/// The features of a timestep, number by number.
#[verifier::spinoff_prover]
pub proof fn timestep_reads(f: Functions, t: Tensor, n: usize, b: int, p: int, j: int)
    requires
        has(t, seq![b]),
        n >= 2,
        n % 2 == 0,
        b >= 1,
        b * n <= usize::MAX,
        0 <= p < b,
        0 <= j < n,
    ensures
        has(timestep_features(t, n), seq![b, n as int]),
        at2(f, timestep_features(t, n), p, j) == time_feature(f, at1(f, t, p), n as int, j),
{
    broadcast use {extents, readings};

    let half = n as int / 2;
    assert(b * half <= b * n && b <= b * n) by (nonlinear_arith)
        requires
            b >= 1,
            n >= 1,
            0 <= half <= n,
    ;
    let fs = frequencies((n / 2) as usize);
    let row = Tensor::constant(fs, seq![half]);
    products(half, 1, 1, 1, 1, 1);
    products(1, half, 1, 1, 1, 1);
    reshape_has(row, seq![1, half]);
    let flat = row.reshape(seq![1, half]);
    broadcast_to_has(flat, seq![b, half]);
    products(b, 1, 1, 1, 1, 1);
    reshape_has(t, seq![b, 1]);
    let column = t.reshape(seq![b, 1]);
    broadcast_to_has(column, seq![b, half]);
    let (x, y) = (column.broadcast_to(seq![b, half]), flat.broadcast_to(seq![b, half]));
    let args = x.mul(y);
    let features = args.cos().concat(args.sin(), 1);
    assert(features.dims =~= seq![b, n as int]);
    let k = if j < half {
        j
    } else {
        j - half
    };
    let spot = seq![p, k];
    assert(under(spot, seq![b, 1]) =~= seq![p, 0]) by {
        assert(b == 1 ==> p == 0);
    }
    assert(under(spot, seq![1, half]) =~= seq![0, k]) by {
        assert(half == 1 ==> k == 0);
    }
    assert(at(f, x, spot) == at(f, column, seq![p, 0]) && at(f, y, spot) == at(f, flat, seq![0, k])) by {
        reveal(Tensor::broadcast_to);
        reveal(elements);
    }
    place1(p, b);
    place2(p, 0, b, 1);
    read_reshape(f, t, seq![b, 1], seq![p], seq![p, 0]);
    place1(k, half);
    place2(0, k, 1, half);
    read_reshape(f, row, seq![1, half], seq![k], seq![0, k]);
    assert(at1(f, row, k) == number(f, fs[k]));
    assert(number(f, fs[k]) == (f.exp)(-(f.ln)(10000real) * k as real / half as real)) by {
        number_ten_thousand(f);
        reveal_with_fuel(number, 7);
    }
    assert(at2(f, args, p, k) == at2(f, x, p, k) * at2(f, y, p, k));
    assert(at2(f, features, p, j) == if j < half {
        at2(f, args.cos(), p, j)
    } else {
        at2(f, args.sin(), p, j - half)
    }) by {
        crate::readings::read_concat2(f, args.cos(), args.sin(), p, j);
    }
}

/// The conditioning vector, number by number: the timestep and the label, each
/// through its own maps, added up.
#[verifier::spinoff_prover]
pub proof fn conditioning_reads(
    f: Functions,
    w: &ConditioningWeights,
    t: Tensor,
    y: Tensor,
    d: int,
    b: int,
    p: int,
    j: int,
)
    requires
        w.sized(d),
        1 <= d <= usize::MAX,
        d * d <= usize::MAX,
        b >= 1,
        b * w.frequency_embedding_size <= usize::MAX,
        has(t, seq![b]),
        has(y, seq![b, w.adm_in_channels as int]),
        0 <= p < b,
        0 <= j < d,
    ensures
        at2(f, conditioning(w, t, y, d), p, j) == lifted(
            f,
            |k: int| time_feature(f, at1(f, t, p), w.frequency_embedding_size as int, k),
            w.t_fc1@,
            w.t_fc1_bias@,
            w.t_fc2@,
            w.t_fc2_bias@,
            w.frequency_embedding_size as int,
            d,
            j,
        ) + lifted(
            f,
            row2(f, y, p),
            w.y_fc1@,
            w.y_fc1_bias@,
            w.y_fc2@,
            w.y_fc2_bias@,
            w.adm_in_channels as int,
            d,
            j,
        ),
{
    broadcast use {extents, readings};

    let n = w.frequency_embedding_size;
    let a = w.adm_in_channels as int;
    conditioning_has(w, t, y, d, b);
    let x = timestep_features(t, n);
    let xr = |k: int| time_feature(f, at1(f, t, p), n as int, k);
    timestep_reads(f, t, n, b, p, 0);
    assert forall|k: int| 0 <= k < n implies #[trigger] at2(f, x, p, k) == xr(k) by {
        timestep_reads(f, t, n, b, p, k);
    }
    lifted_reads(f, x, xr, w.t_fc1@, w.t_fc1_bias@, w.t_fc2@, w.t_fc2_bias@, n as int, d, b, p, j);
    lifted_reads(f, y, row2(f, y, p), w.y_fc1@, w.y_fc1_bias@, w.y_fc2@, w.y_fc2_bias@, a, d, b, p, j);
    let te = biased(biased(x, w.t_fc1@, w.t_fc1_bias@, n as int, d).silu(), w.t_fc2@, w.t_fc2_bias@, d, d);
    let ye = biased(biased(y, w.y_fc1@, w.y_fc1_bias@, a, d).silu(), w.y_fc2@, w.y_fc2_bias@, d, d);
    assert(at2(f, te.add(ye), p, j) == at2(f, te, p, j) + at2(f, ye, p, j));
    assert(te.add(ye).dims == seq![t.dim(0), d]);
}

proof fn lifted_reads(
    f: Functions,
    x: Tensor,
    r: Row,
    w1: Seq<Scalar>,
    b1: Seq<Scalar>,
    w2: Seq<Scalar>,
    b2: Seq<Scalar>,
    n: int,
    d: int,
    b: int,
    p: int,
    j: int,
)
    requires
        has(x, seq![b, n]),
        n >= 1,
        1 <= d <= usize::MAX,
        n * d <= usize::MAX,
        d * d <= usize::MAX,
        w1.len() == n * d,
        b1.len() == d,
        w2.len() == d * d,
        b2.len() == d,
        0 <= p < b,
        0 <= j < d,
        forall|k: int| 0 <= k < n ==> #[trigger] at2(f, x, p, k) == r(k),
    ensures
        has(biased(biased(x, w1, b1, n, d).silu(), w2, b2, d, d), seq![b, d]),
        at2(f, biased(biased(x, w1, b1, n, d).silu(), w2, b2, d, d), p, j) == lifted(
            f,
            r,
            w1,
            b1,
            w2,
            b2,
            n,
            d,
            j,
        ),
{
    broadcast use {extents, readings};

    let y = biased(x, w1, b1, n, d);
    biased_reads2(f, x, r, w1, b1, n, d, b, p, 0);
    let z = y.silu();
    let zr = |k: int| silu(f, affine_row(f, r, w1, b1, n, d, k));
    assert forall|k: int| 0 <= k < d implies #[trigger] at2(f, z, p, k) == zr(k) by {
        biased_reads2(f, x, r, w1, b1, n, d, b, p, k);
        assert(at2(f, z, p, k) == silu(f, at2(f, y, p, k)));
    }
    biased_reads2(f, z, zr, w2, b2, d, d, b, p, j);
}

/// The tokens after the first `n` double-stream blocks, number by number: block
/// `n - 1` works on those after the blocks before it, unless it is left out.
pub proof fn blocks_read(
    f: Functions,
    cfg: &MmDitConfig,
    blocks: Seq<DoubleStreamBlockWeights>,
    n: int,
    skips: Option<Seq<usize>>,
    c: Tensor,
    txt: Tensor,
    img: Tensor,
    b: int,
    t: int,
    s: int,
    p: int,
    i: int,
    j: int,
)
    requires
        cfg.addressable(b, t + s),
        t >= 1,
        s >= 1,
        0 <= n <= blocks.len(),
        forall|e: int|
            0 <= e < blocks.len() ==> (#[trigger] blocks[e]).text.sized(cfg) && blocks[e].image.sized(cfg),
        has(c, seq![b, cfg.dim as int]),
        has(txt, seq![b, t, cfg.dim as int]),
        has(img, seq![b, s, cfg.dim as int]),
        0 <= p < b,
        0 <= j < cfg.dim,
    ensures
        ({
            let (x, y) = double_streams_value(cfg, blocks, n, skips, c, txt, img);
            let (u, v) = double_streams_value(cfg, blocks, n - 1, skips, c, txt, img);
            let left_out = skips matches Some(l) && exists|k: int| 0 <= k < l.len() && #[trigger] l[k] == n - 1;
            let cr = row2(f, c, p);
            let (us, vs) = (sample(f, u, p), sample(f, v, p));
            &&& n == 0 ==> x == txt && y == img
            &&& n > 0 && left_out ==> x == u && y == v
            &&& n > 0 && !left_out && 0 <= i < t ==> at3(f, x, p, i, j) == updated_row(
                f,
                cfg,
                &blocks[n - 1].text,
                cr,
                us(i),
                joint_row(f, cfg, &blocks[n - 1], cr, us, vs, t, s, i),
                j,
            )
            &&& n > 0 && !left_out && 0 <= i < s ==> at3(f, y, p, i, j) == updated_row(
                f,
                cfg,
                &blocks[n - 1].image,
                cr,
                vs(i),
                joint_row(f, cfg, &blocks[n - 1], cr, us, vs, t, s, t + i),
                j,
            )
        }),
{
    if n > 0 {
        double_streams_have(cfg, blocks, n - 1, skips, c, txt, img, b, t, s);
        let (u, v) = double_streams_value(cfg, blocks, n - 1, skips, c, txt, img);
        assert(blocks[n - 1].text.sized(cfg));
        double_stream_reads(f, cfg, &blocks[n - 1], c, u, v, b, t, s, p, i, j);
    }
}

/// A run, number by number: the image tokens are those behind the text tokens after
/// the single-stream blocks, which work on the text tokens followed by the image
/// tokens after the double-stream blocks.
#[verifier::spinoff_prover]
pub proof fn value_reads(
    f: Functions,
    model: &MmDitModel,
    img: Tensor,
    txt: Tensor,
    t: Tensor,
    y: Tensor,
    b: int,
    nt: int,
    ni: int,
    n: int,
    p: int,
    i: int,
    j: int,
)
    requires
        model.config.addressable(b, nt + ni),
        nt >= 1,
        ni >= 1,
        b * model.weights.conditioning.frequency_embedding_size <= usize::MAX,
        model.weights.sized(&model.config),
        has(img, seq![b, ni, model.config.dim as int]),
        has(txt, seq![b, nt, model.config.dim as int]),
        has(t, seq![b]),
        has(y, seq![b, model.weights.conditioning.adm_in_channels as int]),
        0 <= n <= model.weights.single_blocks@.len(),
        0 <= p < b,
        0 <= j < model.config.dim,
    ensures
        ({
            let cfg = &model.config;
            let w = &model.weights;
            let c = conditioning(&w.conditioning, t, y, cfg.dim as int);
            let (th, ih) = double_streams_value(
                cfg,
                w.double_blocks@,
                w.double_blocks@.len() as int,
                None,
                c,
                txt,
                img,
            );
            let start = th.concat(ih, 1);
            let now = single_streams_value(cfg, w.single_blocks@, n, c, start);
            let before = sample(f, single_streams_value(cfg, w.single_blocks@, n - 1, c, start), p);
            let end = single_streams_value(cfg, w.single_blocks@, w.single_blocks@.len() as int, c, start);
            let cr = row2(f, c, p);
            &&& 0 <= i < nt ==> at3(f, start, p, i, j) == at3(f, th, p, i, j)
            &&& 0 <= i < ni ==> at3(f, start, p, nt + i, j) == at3(f, ih, p, i, j)
            &&& n == 0 ==> now == start
            &&& n > 0 && 0 <= i < nt + ni ==> {
                let v = &w.single_blocks@[n - 1].stream();
                let part = |k: int| |o: int| part_row(f, cfg, v, cr, before(o), k);
                at3(f, now, p, i, j) == updated_row(
                    f,
                    cfg,
                    v,
                    cr,
                    before(i),
                    |k: int| attended_row(f, part(0)(i), part(1), part(2), nt + ni, cfg.width(), k),
                    j,
                )
            }
            &&& 0 <= i < ni ==> at3(f, model.value(img, txt, t, y), p, i, j) == at3(f, end, p, nt + i, j)
        }),
{
    broadcast use {extents, readings};

    let cfg = &model.config;
    let w = &model.weights;
    let d = cfg.dim as int;
    assert(d * d <= d * (6 * d)) by (nonlinear_arith)
        requires
            d >= 1,
    ;
    conditioning_has(&w.conditioning, t, y, d, b);
    let c = conditioning(&w.conditioning, t, y, d);
    let m = w.double_blocks@.len() as int;
    double_streams_have(cfg, w.double_blocks@, m, None, c, txt, img, b, nt, ni);
    let (th, ih) = double_streams_value(cfg, w.double_blocks@, m, None, c, txt, img);
    let start = th.concat(ih, 1);
    assert(start.dims =~= seq![b, nt + ni, d]);
    let last = w.single_blocks@.len() as int;
    single_streams_have(cfg, w.single_blocks@, last, c, start, b, nt + ni);
    let end = single_streams_value(cfg, w.single_blocks@, last, c, start);
    let cut = end.narrow(1, nt, ni);
    assert(cut.dims =~= seq![b, ni, d]);
    if n > 0 && 0 <= i < nt + ni {
        single_streams_have(cfg, w.single_blocks@, n - 1, c, start, b, nt + ni);
        let u = single_streams_value(cfg, w.single_blocks@, n - 1, c, start);
        single_stream_reads(f, cfg, &w.single_blocks@[n - 1], c, u, b, nt + ni, p, i, j);
        let v = &w.single_blocks@[n - 1].stream();
        let cr = row2(f, c, p);
        let before = sample(f, u, p);
        let part = |k: int| |o: int| part_row(f, cfg, v, cr, before(o), k);
        let same = |k: int| |o: int| part_row(f, cfg, v, cr, row3(f, u, p, o), k);
        assert(part(0) =~= same(0));
        assert(part(1) =~= same(1));
        assert(part(2) =~= same(2));
        assert(part(0)(i) == same(0)(i));
    }
    assert(0 <= i < ni ==> at3(f, cut, p, i, j) == at3(f, end, p, i + nt, j));
}

/// The centre of the grid of positions, number by number.
#[verifier::spinoff_prover]
pub proof fn position_crop_reads(
    f: Functions,
    pos: Seq<Scalar>,
    side: int,
    d: int,
    h: int,
    w: int,
    y: int,
    x: int,
    k: int,
)
    requires
        1 <= h <= side,
        1 <= w <= side,
        d >= 1,
        pos.len() == side * side * d,
        side * side * d <= usize::MAX,
        0 <= y < h,
        0 <= x < w,
        0 <= k < d,
    ensures
        at3(f, position_crop(pos, side, d, h, w), 0, y * w + x, k) == number(
            f,
            pos[((y + (side - h) / 2) * side + x + (side - w) / 2) * d + k],
        ),
{
    broadcast use extents;

    position_crop_has(pos, side, d, h, w);
    products(1, side, side, d, 1, 1);
    assert(1 * side * side * d == side * side * d) by (nonlinear_arith);
    constant_has(pos, seq![1, side, side, d]);
    let grid = Tensor::constant(pos, seq![1, side, side, d]);
    let (dy, dx) = ((side - h) / 2, (side - w) / 2);
    let rows = grid.narrow(1, dy, h);
    let cut = rows.narrow(2, dx, w);
    assert(rows.dims =~= seq![1, h, side, d]);
    assert(cut.dims =~= seq![1, h, w, d]);
    assert(h * w <= side * side && side * side <= side * side * d) by (nonlinear_arith)
        requires
            1 <= h <= side,
            1 <= w <= side,
            d >= 1,
    ;
    let (spot, mid, far) = (seq![0, y, x, k], seq![0, y, x + dx, k], seq![0, y + dy, x + dx, k]);
    assert(at(f, cut, spot) == at(f, rows, mid) && at(f, rows, mid) == at(f, grid, far)) by {
        reveal(Tensor::narrow);
        reveal(elements);
        assert(spot.update(2, spot[2] + dx) =~= mid);
        assert(mid.update(1, mid[1] + dy) =~= far);
    }
    place4(0, y, x, k, 1, h, w, d);
    place3(0, y * w + x, k, 1, h * w, d);
    assert((0 * (h * w) + (y * w + x)) * d + k == ((0 * h + y) * w + x) * d + k) by (nonlinear_arith);
    read_reshape(f, cut, seq![1, h * w, d], spot, seq![0, y * w + x, k]);
    read_constant(f, pos, seq![1, side, side, d], far);
    place4(0, y + dy, x + dx, k, 1, side, side, d);
    assert(((0 * side + (y + dy)) * side + (x + dx)) * d + k == ((y + dy) * side + x + dx) * d + k)
        by (nonlinear_arith);
}

} // verus!
