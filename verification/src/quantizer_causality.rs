//! The quantizer works on each position by itself: codes agree where the signals
//! agree, and signals agree where the codes agree.

use crate::codec_extents::{
    channels_mapped_has, mapped_has, residual_has, rvq_decode_succeeds, rvq_encode_succeeds, split_decode_succeeds,
    split_encode_succeeds, stacked_codes_have, summed_has, vq_decode_succeeds, vq_encode_succeeds,
};
use crate::common::stacked;
use crate::evaluation::{agrees, lawful, regroups_front, same, At};
use crate::extents::{broadcast_to_has, constant_has, extents, has, products, reshape_has};
use crate::lazy::Tensor;
use crate::lazy_mimi_quantization::{
    channels_mapped, mapped, ResidualVectorQuantizationWeights, ResidualVectorQuantizerWeights,
    SplitResidualVectorQuantizerWeights, VectorQuantizationWeights,
};
use crate::scalar::Data;
use vstd::prelude::*;

verus! {

proof fn mapped_agrees<V>(
    at: At<V>,
    x: Tensor,
    y: Tensor,
    w: Option<Data>,
    bias: Option<Data>,
    fan_in: int,
    fan_out: int,
    t: int,
    u: int,
    m: int,
)
    requires
        lawful(at),
        has(x, seq![1, t, fan_in]),
        has(y, seq![1, u, fan_in]),
        fan_in >= 1,
        1 <= fan_out <= usize::MAX,
        match w {
            None => fan_in == fan_out,
            Some(w) => {
                &&& fan_out * fan_in <= usize::MAX
                &&& w@.len() == fan_out * fan_in
                &&& bias matches Some(v) ==> v@.len() == fan_out
            },
        },
        agrees(at, x, y, 1, m),
    ensures
        agrees(at, mapped(x, w, bias, fan_in, fan_out), mapped(y, w, bias, fan_in, fan_out), 1, m),
{
    broadcast use extents;

    if let Some(v) = w {
        products(fan_out, fan_in, 1, 1, 1, 1);
        products(fan_out, 1, 1, 1, 1, 1);
        constant_has(v@, seq![fan_out, fan_in]);
        let k = Tensor::constant(v@, seq![fan_out, fan_in]).permute(seq![1, 0]);
        let mx = x.matmul(k);
        let my = y.matmul(k);
        assert(has(mx, seq![1, t, fan_out]));
        assert(has(my, seq![1, u, fan_out]));
        assert forall|j: int| 0 <= j < m implies #[trigger] same(
            at,
            mapped(x, w, bias, fan_in, fan_out),
            mapped(y, w, bias, fan_in, fan_out),
            1,
            j,
        ) by {
            assert(same(at, x, y, 1, j));
            assert(same(at, mx, my, 1, j));
            if let Some(b) = bias {
                let r = Tensor::constant(b@, seq![fan_out]);
                assert(same(at, mx.broadcast_add(r), my.broadcast_add(r), 1, j));
            }
        }
    }
}

/// A codebook encodes each position by itself.
pub proof fn vq_encode_agrees<V>(
    at: At<V>,
    w: &VectorQuantizationWeights,
    x: Tensor,
    y: Tensor,
    t: int,
    u: int,
    m: int,
)
    requires
        lawful(at),
        w.sized(1, t),
        w.sized(1, u),
        has(x, seq![1, w.dim as int, t]),
        has(y, seq![1, w.dim as int, u]),
        m <= t,
        m <= u,
        agrees(at, x, y, 2, m),
    ensures
        agrees(at, w.encoded(x), w.encoded(y), 1, m),
{
    broadcast use extents;

    let n = w.codebook.codebook_size as int;
    let cd = w.codebook.codebook_dim as int;
    let d = w.dim as int;
    let p = seq![0int, 2, 1];
    let xp = x.permute(p);
    let yp = y.permute(p);
    assert(has(xp, seq![1, t, d]));
    assert(has(yp, seq![1, u, d]));
    assert forall|j: int| 0 <= j < m implies #[trigger] same(at, xp, yp, 1, j) by {
        assert(same(at, x, y, 2, j));
        assert(p[1] == 2);
    }
    mapped_agrees(at, xp, yp, w.project_in_w, w.project_in_b, d, cd, t, u, m);
    let xm = mapped(xp, w.project_in_w, w.project_in_b, d, cd);
    let ym = mapped(yp, w.project_in_w, w.project_in_b, d, cd);
    let xf = encode_steps(w, x, t);
    let yf = encode_steps(w, y, u);
    let c2 = Tensor::constant(w.codebook.c2@, seq![n]).reshape(seq![1, n]);
    let k = w.codebook.rows().permute(seq![1, 0]);
    let xt = seq![t, n];
    let yt = seq![u, n];
    assert(xt =~= c2.dims.update(0, xt[0]));
    assert(yt =~= c2.dims.update(0, yt[0]));
    assert(regroups_front(xm.dims, ym.dims, seq![t, cd], seq![u, cd], 1, 0));
    let (xb, yb) = (c2.broadcast_to(xt), c2.broadcast_to(yt));
    let (xs, ys) = (xb.sub(xf.matmul(k)), yb.sub(yf.matmul(k)));
    let (xc, yc) = (xs.argmin_dim(1), ys.argmin_dim(1));
    let (d1, e1) = (seq![1, t], seq![1, u]);
    assert(regroups_front(xc.dims, yc.dims, d1, e1, 0, 1));
    assert forall|j: int| 0 <= j < m implies #[trigger] same(at, w.encoded(x), w.encoded(y), 1, j) by {
        assert(same(at, xm, ym, 1, j));
        assert(same(at, xm.reshape(seq![t, cd]), ym.reshape(seq![u, cd]), 0, j));
        assert(same(at, xf, yf, 0, j));
        assert(same(at, xf.matmul(k), yf.matmul(k), 0, j));
        assert(at(c2.broadcast_to(xt), 0, j) == at(c2, 0, 0));
        assert(at(c2.broadcast_to(yt), 0, j) == at(c2, 0, 0));
        assert(same(at, xb, yb, 0, j));
        assert(same(at, xs, ys, 0, j));
        assert(same(at, xc, yc, 0, j));
        assert(same(at, xc.reshape(d1), yc.reshape(e1), 1, j));
    }
}

/// The steps of encoding succeed; the result is the signal as rows.
proof fn encode_steps(w: &VectorQuantizationWeights, x: Tensor, t: int) -> (flat: Tensor)
    requires
        w.sized(1, t),
        has(x, seq![1, w.dim as int, t]),
    ensures
        ({
            let n = w.codebook.codebook_size as int;
            let cd = w.codebook.codebook_dim as int;
            let y = mapped(
                x.permute(seq![0, 2, 1]),
                w.project_in_w,
                w.project_in_b,
                w.dim as int,
                cd,
            );
            let c2 = Tensor::constant(w.codebook.c2@, seq![n]).reshape(seq![1, n]);
            let k = w.codebook.rows().permute(seq![1, 0]);
            let scores = c2.broadcast_to(seq![t, n]).sub(flat.matmul(k));
            &&& has(y, seq![1, t, cd])
            &&& flat == y.reshape(seq![t, cd])
            &&& has(flat, seq![t, cd])
            &&& has(c2, seq![1, n])
            &&& k.rank() == 2
            &&& has(flat.matmul(k), seq![t, n])
            &&& has(c2.broadcast_to(seq![t, n]), seq![t, n])
            &&& has(scores, seq![t, n])
            &&& has(scores.argmin_dim(1), seq![t])
            &&& has(scores.argmin_dim(1).reshape(seq![1, t]), seq![1, t])
            &&& w.encoded(x) == scores.argmin_dim(1).reshape(seq![1, t])
        }),
{
    broadcast use extents;

    let n = w.codebook.codebook_size as int;
    let cd = w.codebook.codebook_dim as int;
    let d = w.dim as int;
    assert(1 * t == t);
    assert(t <= t * cd) by (nonlinear_arith)
        requires
            t >= 1,
            cd >= 1,
    ;
    let xp = x.permute(seq![0, 2, 1]);
    mapped_has(xp, w.project_in_w, w.project_in_b, d, cd, 1, t);
    let y = mapped(xp, w.project_in_w, w.project_in_b, d, cd);
    products(1, t, cd, 1, 1, 1);
    products(t, cd, 1, 1, 1, 1);
    reshape_has(y, seq![t, cd]);
    let flat = y.reshape(seq![t, cd]);
    products(n, cd, 1, 1, 1, 1);
    constant_has(w.codebook.embedding@, seq![n, cd]);
    products(n, 1, 1, 1, 1, 1);
    products(1, n, 1, 1, 1, 1);
    assert(n <= n * cd) by (nonlinear_arith)
        requires
            n >= 1,
            cd >= 1,
    ;
    let c2 = Tensor::constant(w.codebook.c2@, seq![n]);
    reshape_has(c2, seq![1, n]);
    broadcast_to_has(c2.reshape(seq![1, n]), seq![t, n]);
    let scores = w.codebook.scores(flat);
    assert(has(scores, seq![t, n]));
    let codes = scores.argmin_dim(1);
    assert(codes.dims =~= seq![t]);
    products(t, 1, 1, 1, 1, 1);
    products(1, t, 1, 1, 1, 1);
    reshape_has(codes, seq![1, t]);
    flat
}

/// A codebook decodes each position by itself.
pub proof fn vq_decode_agrees<V>(
    at: At<V>,
    w: &VectorQuantizationWeights,
    x: Tensor,
    y: Tensor,
    t: int,
    u: int,
    m: int,
)
    requires
        lawful(at),
        w.sized(1, t),
        w.sized(1, u),
        has(x, seq![1, t]),
        has(y, seq![1, u]),
        m <= t,
        m <= u,
        agrees(at, x, y, 1, m),
    ensures
        agrees(at, w.decoded(x), w.decoded(y), 2, m),
{
    broadcast use extents;

    let cd = w.codebook.codebook_dim as int;
    let d = w.dim as int;
    let xr = decode_steps(w, x, t);
    let yr = decode_steps(w, y, u);
    let rows = w.codebook.rows();
    let (d1, e1) = (seq![t], seq![u]);
    let (d3, e3) = (seq![1, t, cd], seq![1, u, cd]);
    assert(regroups_front(x.dims, y.dims, d1, e1, 1, 0));
    let (xi, yi) = (x.reshape(d1), y.reshape(e1));
    let (xs, ys) = (rows.index_select(0, xi), rows.index_select(0, yi));
    assert(regroups_front(xs.dims, ys.dims, d3, e3, 0, 1));
    assert forall|j: int| 0 <= j < m implies #[trigger] same(at, xr, yr, 1, j) by {
        assert(same(at, x, y, 1, j));
        assert(same(at, xi, yi, 0, j));
        assert(same(at, xs, ys, 0, j));
        assert(same(at, xs.reshape(d3), ys.reshape(e3), 1, j));
    }
    mapped_has(xr, w.project_out_w, w.project_out_b, cd, d, 1, t);
    mapped_has(yr, w.project_out_w, w.project_out_b, cd, d, 1, u);
    mapped_agrees(at, xr, yr, w.project_out_w, w.project_out_b, cd, d, t, u, m);
    let xm = mapped(xr, w.project_out_w, w.project_out_b, cd, d);
    let ym = mapped(yr, w.project_out_w, w.project_out_b, cd, d);
    let p = seq![0int, 2, 1];
    assert forall|j: int| 0 <= j < m implies #[trigger] same(at, w.decoded(x), w.decoded(y), 2, j) by {
        assert(same(at, xm, ym, 1, j));
        assert(p[2] == 1);
        assert(same(at, xm.permute(p), ym.permute(p), 2, j));
    }
}

/// The steps of decoding succeed; the result is the picked rows.
proof fn decode_steps(w: &VectorQuantizationWeights, x: Tensor, t: int) -> (r: Tensor)
    requires
        w.sized(1, t),
        has(x, seq![1, t]),
    ensures
        ({
            let cd = w.codebook.codebook_dim as int;
            let rows = w.codebook.rows();
            let ids = x.reshape(seq![t]);
            &&& has(ids, seq![t])
            &&& has(rows.index_select(0, ids), seq![t, cd])
            &&& r == rows.index_select(0, ids).reshape(seq![1, t, cd])
            &&& has(r, seq![1, t, cd])
            &&& w.decoded(x) == mapped(
                r,
                w.project_out_w,
                w.project_out_b,
                cd,
                w.dim as int,
            ).permute(seq![0, 2, 1])
        }),
{
    broadcast use extents;

    let n = w.codebook.codebook_size as int;
    let cd = w.codebook.codebook_dim as int;
    assert(1 * t == t);
    assert(t <= t * cd) by (nonlinear_arith)
        requires
            t >= 1,
            cd >= 1,
    ;
    products(1, t, 1, 1, 1, 1);
    products(t, 1, 1, 1, 1, 1);
    reshape_has(x, seq![t]);
    products(n, cd, 1, 1, 1, 1);
    constant_has(w.codebook.embedding@, seq![n, cd]);
    let picked = w.codebook.decoded(x.reshape(seq![t]));
    assert(picked.dims =~= seq![t, cd]);
    products(t, cd, 1, 1, 1, 1);
    products(1, t, cd, 1, 1, 1);
    reshape_has(picked, seq![1, t, cd]);
    picked.reshape(seq![1, t, cd])
}

proof fn residual_agrees<V>(
    at: At<V>,
    w: &ResidualVectorQuantizationWeights,
    n: int,
    x: Tensor,
    y: Tensor,
    d: int,
    t: int,
    u: int,
    m: int,
)
    requires
        lawful(at),
        w.sized(d, 1, t),
        w.sized(d, 1, u),
        0 <= n <= w.layers@.len(),
        has(x, seq![1, d, t]),
        has(y, seq![1, d, u]),
        m <= t,
        m <= u,
        agrees(at, x, y, 2, m),
    ensures
        agrees(at, w.residual(x, n), w.residual(y, n), 2, m),
    decreases n,
{
    if n > 0 {
        residual_agrees(at, w, n - 1, x, y, d, t, u, m);
        residual_has(w, x, n - 1, d, 1, t);
        residual_has(w, y, n - 1, d, 1, u);
        residual_has(w, x, n, d, 1, t);
        residual_has(w, y, n, d, 1, u);
        let a = w.residual(x, n - 1);
        let b = w.residual(y, n - 1);
        let layer = w.layers@[n - 1];
        assert(layer.sized(1, t) && layer.sized(1, u));
        vq_encode_succeeds(&layer, a, 1, t);
        vq_encode_succeeds(&layer, b, 1, u);
        vq_encode_agrees(at, &layer, a, b, t, u, m);
        vq_decode_agrees(at, &layer, layer.encoded(a), layer.encoded(b), t, u, m);
        let ra = layer.decoded(layer.encoded(a));
        let rb = layer.decoded(layer.encoded(b));
        assert forall|j: int| 0 <= j < m implies #[trigger] same(at, a.sub(ra), b.sub(rb), 2, j) by {
            assert(same(at, a, b, 2, j));
            assert(same(at, ra, rb, 2, j));
        }
    }
}

proof fn stacked_agrees<V>(at: At<V>, a: Seq<Tensor>, b: Seq<Tensor>, t: int, u: int, m: int)
    requires
        lawful(at),
        1 <= a.len() <= usize::MAX,
        a.len() == b.len(),
        forall|i: int| 0 <= i < a.len() ==> has(#[trigger] a[i], seq![1, t]),
        forall|i: int| 0 <= i < b.len() ==> has(#[trigger] b[i], seq![1, u]),
        forall|i: int| 0 <= i < a.len() ==> agrees(at, #[trigger] a[i], b[i], 1, m),
    ensures
        agrees(at, stacked(a, 0), stacked(b, 0), 2, m),
    decreases a.len(),
{
    broadcast use extents;

    let k = a.len() as int;
    let la = a[k - 1].unsqueeze(0);
    let lb = b[k - 1].unsqueeze(0);
    assert forall|j: int| 0 <= j < m implies #[trigger] same(at, la, lb, 2, j) by {
        assert(same(at, a[k - 1], b[k - 1], 1, j));
    }
    if k > 1 {
        let fa = a.drop_last();
        let fb = b.drop_last();
        assert forall|i: int| 0 <= i < fa.len() implies has(#[trigger] fa[i], seq![1, t]) by {
            assert(fa[i] == a[i]);
        }
        assert forall|i: int| 0 <= i < fb.len() implies has(#[trigger] fb[i], seq![1, u]) by {
            assert(fb[i] == b[i]);
        }
        assert forall|i: int| 0 <= i < fa.len() implies agrees(at, #[trigger] fa[i], fb[i], 1, m) by {
            assert(fa[i] == a[i] && fb[i] == b[i]);
        }
        stacked_agrees(at, fa, fb, t, u, m);
        stacked_codes_have(a, 1, t);
        stacked_codes_have(b, 1, u);
        let sa = stacked(fa, 0);
        let sb = stacked(fb, 0);
        assert forall|j: int| 0 <= j < m implies #[trigger] same(
            at,
            sa.concat(la, 0),
            sb.concat(lb, 0),
            2,
            j,
        ) by {
            assert(same(at, sa, sb, 2, j));
            assert(same(at, la, lb, 2, j));
        }
    }
}

proof fn rvq_encode_agrees<V>(
    at: At<V>,
    w: &ResidualVectorQuantizationWeights,
    x: Tensor,
    y: Tensor,
    d: int,
    t: int,
    u: int,
    m: int,
)
    requires
        lawful(at),
        w.sized(d, 1, t),
        w.sized(d, 1, u),
        has(x, seq![1, d, t]),
        has(y, seq![1, d, u]),
        m <= t,
        m <= u,
        agrees(at, x, y, 2, m),
    ensures
        agrees(at, w.encoded(x), w.encoded(y), 2, m),
{
    let n = w.layers@.len() as int;
    let a = Seq::new(n as nat, |i: int| w.layer_codes(x, i));
    let b = Seq::new(n as nat, |i: int| w.layer_codes(y, i));
    assert forall|i: int| 0 <= i < n implies has(#[trigger] a[i], seq![1, t]) && has(b[i], seq![1, u]) && agrees(
        at,
        a[i],
        b[i],
        1,
        m,
    ) by {
        residual_has(w, x, i, d, 1, t);
        residual_has(w, y, i, d, 1, u);
        residual_agrees(at, w, i, x, y, d, t, u, m);
        let layer = w.layers@[i];
        assert(layer.sized(1, t) && layer.sized(1, u));
        vq_encode_succeeds(&layer, w.residual(x, i), 1, t);
        vq_encode_succeeds(&layer, w.residual(y, i), 1, u);
        vq_encode_agrees(at, &layer, w.residual(x, i), w.residual(y, i), t, u, m);
    }
    assert forall|i: int| 0 <= i < b.len() implies has(#[trigger] b[i], seq![1, u]) by {
        assert(has(a[i], seq![1, t]));
    }
    residual_has(w, x, n, d, 1, t);
    residual_has(w, y, n, d, 1, u);
    stacked_agrees(at, a, b, t, u, m);
}

proof fn channels_agree<V>(
    at: At<V>,
    w: Option<Data>,
    x: Tensor,
    y: Tensor,
    c_in: int,
    c_out: int,
    t: int,
    u: int,
    m: int,
)
    requires
        lawful(at),
        has(x, seq![1, c_in, t]),
        has(y, seq![1, c_in, u]),
        c_in >= 1,
        c_out >= 1,
        1 <= t <= usize::MAX,
        1 <= u <= usize::MAX,
        c_out * c_in <= usize::MAX,
        match w {
            None => c_in == c_out,
            Some(v) => v@.len() == c_out * c_in,
        },
        agrees(at, x, y, 2, m),
    ensures
        has(channels_mapped(x, w, c_in, c_out), seq![1, c_out, t]),
        has(channels_mapped(y, w, c_in, c_out), seq![1, c_out, u]),
        agrees(at, channels_mapped(x, w, c_in, c_out), channels_mapped(y, w, c_in, c_out), 2, m),
{
    channels_mapped_has(x, w, c_in, c_out, 1, t);
    channels_mapped_has(y, w, c_in, c_out, 1, u);
    if let Some(v) = w {
        products(c_out, c_in, 1, 1, 1, 1);
        constant_has(v@, seq![c_out, c_in, 1]);
        let k = Tensor::constant(v@, seq![c_out, c_in, 1]);
        assert forall|j: int| 0 <= j < m implies #[trigger] same(
            at,
            x.conv1d(k, None, 1, 0, 1),
            y.conv1d(k, None, 1, 0, 1),
            2,
            j,
        ) by {
            assert forall|i: int| 0 <= i < k.dim(2) implies #[trigger] same(at, x, y, 2, j * 1 + i) by {
                assert(j * 1 + i == j);
                assert(same(at, x, y, 2, j));
            }
        }
    }
}

proof fn stack_encode_agrees<V>(
    at: At<V>,
    w: &ResidualVectorQuantizerWeights,
    x: Tensor,
    y: Tensor,
    t: int,
    u: int,
    m: int,
)
    requires
        lawful(at),
        w.sized(1, t),
        w.sized(1, u),
        1 <= t <= usize::MAX,
        1 <= u <= usize::MAX,
        has(x, seq![1, w.input_dim as int, t]),
        has(y, seq![1, w.input_dim as int, u]),
        m <= t,
        m <= u,
        agrees(at, x, y, 2, m),
    ensures
        agrees(at, w.encoded(x), w.encoded(y), 2, m),
{
    broadcast use extents;

    let d = w.dim as int;
    let i = w.input_dim as int;
    channels_agree(at, w.input_proj_w, x, y, i, d, t, u, m);
    let a = channels_mapped(x, w.input_proj_w, i, d);
    let b = channels_mapped(y, w.input_proj_w, i, d);
    rvq_encode_succeeds(&w.vq, a, d, 1, t);
    rvq_encode_succeeds(&w.vq, b, d, 1, u);
    rvq_encode_agrees(at, &w.vq, a, b, d, t, u, m);
    let p = seq![1int, 0, 2];
    let ca = w.vq.encoded(a);
    let cb = w.vq.encoded(b);
    assert forall|j: int| 0 <= j < m implies #[trigger] same(at, ca.permute(p), cb.permute(p), 2, j) by {
        assert(same(at, ca, cb, 2, j));
        assert(p[2] == 2);
    }
}

/// Signals that agree at a position have the same codes there.
pub proof fn quantizer_encode_agrees<V>(
    at: At<V>,
    w: &SplitResidualVectorQuantizerWeights,
    x: Tensor,
    y: Tensor,
    d_in: int,
    d_out: int,
    t: int,
    u: int,
    m: int,
)
    requires
        lawful(at),
        w.sized(d_in, d_out, 1, t),
        w.sized(d_in, d_out, 1, u),
        has(x, seq![1, d_in, t]),
        has(y, seq![1, d_in, u]),
        m <= t,
        m <= u,
        agrees(at, x, y, 2, m),
    ensures
        agrees(at, w.encoded(x), w.encoded(y), 2, m),
{
    stack_encode_agrees(at, &w.rvq_first, x, y, t, u, m);
    split_encode_succeeds(w, x, d_in, d_out, 1, t);
    split_encode_succeeds(w, y, d_in, d_out, 1, u);
    if w.n_q > 1 {
        stack_encode_agrees(at, &w.rvq_rest, x, y, t, u, m);
        let (fx, fy) = (w.rvq_first.encoded(x), w.rvq_first.encoded(y));
        let (rx, ry) = (w.rvq_rest.encoded(x), w.rvq_rest.encoded(y));
        assert forall|j: int| 0 <= j < m implies #[trigger] same(at, fx.concat(rx, 1), fy.concat(ry, 1), 2, j) by {
            assert(same(at, fx, fy, 2, j));
            assert(same(at, rx, ry, 2, j));
        }
    }
}

/// What a layer contributes at a position comes from its codes there.
proof fn layer_signal_agrees<V>(
    at: At<V>,
    w: &ResidualVectorQuantizationWeights,
    i: int,
    x: Tensor,
    y: Tensor,
    d: int,
    t: int,
    u: int,
    m: int,
)
    requires
        lawful(at),
        w.sized(d, 1, t),
        w.sized(d, 1, u),
        0 <= i < w.layers@.len(),
        1 <= t <= usize::MAX,
        1 <= u <= usize::MAX,
        has(x, seq![w.layers@.len() as int, 1, t]),
        has(y, seq![w.layers@.len() as int, 1, u]),
        m <= t,
        m <= u,
        agrees(at, x, y, 2, m),
    ensures
        has(w.layer_signal(x, i), seq![1, d, t]),
        has(w.layer_signal(y, i), seq![1, d, u]),
        agrees(at, w.layer_signal(x, i), w.layer_signal(y, i), 2, m),
{
    broadcast use extents;

    let (sx, sy) = (x.narrow(0, i, 1), y.narrow(0, i, 1));
    assert(sx.dims =~= seq![1, 1, t]);
    assert(sy.dims =~= seq![1, 1, u]);
    products(1, 1, t, 1, 1, 1);
    products(1, 1, u, 1, 1, 1);
    products(1, t, 1, 1, 1, 1);
    products(1, u, 1, 1, 1, 1);
    let (d2, e2) = (seq![1, t], seq![1, u]);
    reshape_has(sx, d2);
    reshape_has(sy, e2);
    assert(regroups_front(sx.dims, sy.dims, d2, e2, 2, 1));
    let (cx, cy) = (sx.reshape(d2), sy.reshape(e2));
    assert forall|j: int| 0 <= j < m implies #[trigger] same(at, cx, cy, 1, j) by {
        assert(same(at, x, y, 2, j));
        assert(same(at, sx, sy, 2, j));
    }
    let layer = w.layers@[i];
    assert(layer.sized(1, t) && layer.sized(1, u));
    vq_decode_succeeds(&layer, cx, 1, t);
    vq_decode_succeeds(&layer, cy, 1, u);
    vq_decode_agrees(at, &layer, cx, cy, t, u, m);
}

proof fn summed_agrees<V>(
    at: At<V>,
    w: &ResidualVectorQuantizationWeights,
    n: int,
    x: Tensor,
    y: Tensor,
    d: int,
    t: int,
    u: int,
    m: int,
)
    requires
        lawful(at),
        w.sized(d, 1, t),
        w.sized(d, 1, u),
        1 <= n <= w.layers@.len(),
        1 <= t <= usize::MAX,
        1 <= u <= usize::MAX,
        has(x, seq![w.layers@.len() as int, 1, t]),
        has(y, seq![w.layers@.len() as int, 1, u]),
        m <= t,
        m <= u,
        agrees(at, x, y, 2, m),
    ensures
        agrees(at, w.summed(x, n), w.summed(y, n), 2, m),
    decreases n,
{
    layer_signal_agrees(at, w, n - 1, x, y, d, t, u, m);
    if n > 1 {
        summed_agrees(at, w, n - 1, x, y, d, t, u, m);
        assert(1 * t == t && 1 * u == u);
        summed_has(w, x, n, d, 1, t);
        summed_has(w, y, n, d, 1, u);
        let (ax, ay) = (w.summed(x, n - 1), w.summed(y, n - 1));
        let (lx, ly) = (w.layer_signal(x, n - 1), w.layer_signal(y, n - 1));
        assert forall|j: int| 0 <= j < m implies #[trigger] same(at, ax.add(lx), ay.add(ly), 2, j) by {
            assert(same(at, ax, ay, 2, j));
            assert(same(at, lx, ly, 2, j));
        }
    }
}

proof fn stack_decode_agrees<V>(
    at: At<V>,
    w: &ResidualVectorQuantizerWeights,
    x: Tensor,
    y: Tensor,
    t: int,
    u: int,
    m: int,
)
    requires
        lawful(at),
        w.sized(1, t),
        w.sized(1, u),
        1 <= t <= usize::MAX,
        1 <= u <= usize::MAX,
        has(x, seq![1, w.vq.layers@.len() as int, t]),
        has(y, seq![1, w.vq.layers@.len() as int, u]),
        m <= t,
        m <= u,
        agrees(at, x, y, 2, m),
    ensures
        agrees(at, w.decoded(x), w.decoded(y), 2, m),
{
    broadcast use extents;

    let d = w.dim as int;
    let n = w.vq.layers@.len() as int;
    let p = seq![1int, 0, 2];
    let (px, py) = (x.permute(p), y.permute(p));
    assert forall|j: int| 0 <= j < m implies #[trigger] same(at, px, py, 2, j) by {
        assert(same(at, x, y, 2, j));
        assert(p[2] == 2);
    }
    summed_agrees(at, &w.vq, n, px, py, d, t, u, m);
    rvq_decode_succeeds(&w.vq, px, d, 1, t);
    rvq_decode_succeeds(&w.vq, py, d, 1, u);
    channels_agree(
        at,
        w.output_proj_w,
        w.vq.decoded(px),
        w.vq.decoded(py),
        d,
        w.output_dim as int,
        t,
        u,
        m,
    );
}

/// Codes that agree at a position stand for the same signal there.
pub proof fn quantizer_decode_agrees<V>(
    at: At<V>,
    w: &SplitResidualVectorQuantizerWeights,
    x: Tensor,
    y: Tensor,
    d_in: int,
    d_out: int,
    t: int,
    u: int,
    m: int,
)
    requires
        lawful(at),
        w.sized(d_in, d_out, 1, t),
        w.sized(d_in, d_out, 1, u),
        has(x, seq![1, w.n_q as int, t]),
        has(y, seq![1, w.n_q as int, u]),
        m <= t,
        m <= u,
        agrees(at, x, y, 2, m),
    ensures
        agrees(at, w.decoded(x), w.decoded(y), 2, m),
{
    broadcast use extents;

    split_decode_succeeds(w, x, d_in, d_out, 1, t);
    split_decode_succeeds(w, y, d_in, d_out, 1, u);
    let (fx, fy) = (x.narrow(1, 0, 1), y.narrow(1, 0, 1));
    assert(fx.dims =~= seq![1, 1, t]);
    assert(fy.dims =~= seq![1, 1, u]);
    assert forall|j: int| 0 <= j < m implies #[trigger] same(at, fx, fy, 2, j) by {
        assert(same(at, x, y, 2, j));
    }
    stack_decode_agrees(at, &w.rvq_first, fx, fy, t, u, m);
    if w.n_q > 1 {
        let (rx, ry) = (x.narrow(1, 1, w.n_q - 1), y.narrow(1, 1, w.n_q - 1));
        assert(rx.dims =~= seq![1, w.n_q - 1, t]);
        assert(ry.dims =~= seq![1, w.n_q - 1, u]);
        assert forall|j: int| 0 <= j < m implies #[trigger] same(at, rx, ry, 2, j) by {
            assert(same(at, x, y, 2, j));
        }
        stack_decode_agrees(at, &w.rvq_rest, rx, ry, t, u, m);
        let (sx, sy) = (w.rvq_first.decoded(fx), w.rvq_first.decoded(fy));
        let (qx, qy) = (w.rvq_rest.decoded(rx), w.rvq_rest.decoded(ry));
        assert forall|j: int| 0 <= j < m implies #[trigger] same(at, sx.add(qx), sy.add(qy), 2, j) by {
            assert(same(at, sx, sy, 2, j));
            assert(same(at, qx, qy, 2, j));
        }
    }
}

} // verus!
