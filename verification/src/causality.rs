//! Steps of sequence models that keep agreement: rows `(1, time, features)` and
//! heads `(1, heads, time, width)` that agree up to some moment go on to agree.

use crate::common::{
    causal_data, causal_mask_rows, causal_tensor, heads_are_shared, masked_attention,
    masked_attention_has, swiglu,
};
use crate::evaluation::{
    agrees, lawful, look_back, mask_at, mixed_heads, regroups_front, rows_look_back, same, At,
};
use crate::extents::{constant_has, extents, has, lies_under, products, reshape_has};
use crate::lazy::Tensor;
use crate::scalar::{neg_inf, Scalar};
use vstd::prelude::*;

verus! {

/// Two sequences of tokens have the same first `m`.
pub open spec fn begin_alike(a: Seq<u32>, b: Seq<u32>, m: int) -> bool {
    &&& m <= a.len()
    &&& m <= b.len()
    &&& forall|j: int| 0 <= j < m ==> #[trigger] a[j] == b[j]
}

pub proof fn sum_agrees<V>(at: At<V>, x: Tensor, v: Tensor, y: Tensor, w: Tensor, a: int, m: int)
    requires
        lawful(at),
        !x.add(v).bad(),
        !y.add(w).bad(),
        agrees(at, x, y, a, m),
        agrees(at, v, w, a, m),
    ensures
        agrees(at, x.add(v), y.add(w), a, m),
{
    assert forall|j: int| 0 <= j < m implies #[trigger] same(at, x.add(v), y.add(w), a, j) by {
        assert(same(at, x, y, a, j));
        assert(same(at, v, w, a, j));
    }
}

pub proof fn linear_agrees<V>(at: At<V>, x: Tensor, y: Tensor, w: Seq<Scalar>, i: int, o: int, m: int)
    requires
        lawful(at),
        x.rank() == 3,
        y.rank() == 3,
        !x.linear(w, i, o).bad(),
        !y.linear(w, i, o).bad(),
        agrees(at, x, y, 1, m),
    ensures
        agrees(at, x.linear(w, i, o), y.linear(w, i, o), 1, m),
{
    assert forall|j: int| 0 <= j < m implies #[trigger] same(
        at,
        x.linear(w, i, o),
        y.linear(w, i, o),
        1,
        j,
    ) by {
        assert(same(at, x, y, 1, j));
    }
}

/// A row added to each row.
pub proof fn bias_agrees<V>(at: At<V>, x: Tensor, y: Tensor, r: Tensor, m: int)
    requires
        lawful(at),
        x.rank() == 3,
        y.rank() == 3,
        r.rank() == 1,
        !x.broadcast_add(r).bad(),
        !y.broadcast_add(r).bad(),
        agrees(at, x, y, 1, m),
    ensures
        agrees(at, x.broadcast_add(r), y.broadcast_add(r), 1, m),
{
    assert forall|j: int| 0 <= j < m implies #[trigger] same(
        at,
        x.broadcast_add(r),
        y.broadcast_add(r),
        1,
        j,
    ) by {
        assert(same(at, x, y, 1, j));
    }
}

/// A matrix, then a bias.
pub proof fn affine_agrees<V>(
    at: At<V>,
    x: Tensor,
    y: Tensor,
    w: Seq<Scalar>,
    b: Seq<Scalar>,
    i: int,
    o: int,
    t: int,
    u: int,
    m: int,
)
    requires
        lawful(at),
        has(x, seq![1, t, i]),
        has(y, seq![1, u, i]),
        i >= 1,
        1 <= o <= usize::MAX,
        i * o <= usize::MAX,
        w.len() == i * o,
        b.len() == o,
        agrees(at, x, y, 1, m),
    ensures
        has(x.affine(w, b, i, o), seq![1, t, o]),
        has(y.affine(w, b, i, o), seq![1, u, o]),
        agrees(at, x.affine(w, b, i, o), y.affine(w, b, i, o), 1, m),
{
    broadcast use extents;

    linear_agrees(at, x, y, w, i, o, m);
    bias_agrees(
        at,
        x.linear(w, i, o),
        y.linear(w, i, o),
        Tensor::constant(b, seq![o]),
        m,
    );
}

pub proof fn layer_norm_agrees<V>(
    at: At<V>,
    x: Tensor,
    y: Tensor,
    gain: Seq<Scalar>,
    bias: Seq<Scalar>,
    d: int,
    eps: Scalar,
    t: int,
    u: int,
    m: int,
)
    requires
        lawful(at),
        has(x, seq![1, t, d]),
        has(y, seq![1, u, d]),
        1 <= d <= usize::MAX,
        gain.len() == d,
        bias.len() == d,
        agrees(at, x, y, 1, m),
    ensures
        has(x.layer_norm(gain, bias, d, eps), seq![1, t, d]),
        has(y.layer_norm(gain, bias, d, eps), seq![1, u, d]),
        agrees(at, x.layer_norm(gain, bias, d, eps), y.layer_norm(gain, bias, d, eps), 1, m),
{
    broadcast use extents;

    let g = Tensor::constant(gain, seq![d]);
    let b = Tensor::constant(bias, seq![d]);
    let (nx, ny) = (x.layer_norm_last_dim(eps), y.layer_norm_last_dim(eps));
    assert forall|j: int| 0 <= j < m implies #[trigger] same(
        at,
        x.layer_norm(gain, bias, d, eps),
        y.layer_norm(gain, bias, d, eps),
        1,
        j,
    ) by {
        assert(same(at, x, y, 1, j));
        assert(same(at, nx, ny, 1, j));
        assert(same(at, nx.broadcast_mul(g), ny.broadcast_mul(g), 1, j));
        assert(same(
            at,
            nx.broadcast_mul(g).broadcast_add(b),
            ny.broadcast_mul(g).broadcast_add(b),
            1,
            j,
        ));
    }
}

pub proof fn rms_norm_agrees<V>(
    at: At<V>,
    x: Tensor,
    y: Tensor,
    gain: Seq<Scalar>,
    d: int,
    eps: Scalar,
    t: int,
    u: int,
    m: int,
)
    requires
        lawful(at),
        has(x, seq![1, t, d]),
        has(y, seq![1, u, d]),
        1 <= d <= usize::MAX,
        gain.len() == d,
        agrees(at, x, y, 1, m),
    ensures
        has(x.rms_norm(gain, d, eps), seq![1, t, d]),
        has(y.rms_norm(gain, d, eps), seq![1, u, d]),
        agrees(at, x.rms_norm(gain, d, eps), y.rms_norm(gain, d, eps), 1, m),
{
    broadcast use extents;

    let g = Tensor::constant(gain, seq![d]);
    let (nx, ny) = (x.rms_norm_last_dim(eps), y.rms_norm_last_dim(eps));
    assert forall|j: int| 0 <= j < m implies #[trigger] same(
        at,
        x.rms_norm(gain, d, eps),
        y.rms_norm(gain, d, eps),
        1,
        j,
    ) by {
        assert(same(at, x, y, 1, j));
        assert(same(at, nx, ny, 1, j));
        assert(same(at, nx.broadcast_mul(g), ny.broadcast_mul(g), 1, j));
    }
}

pub proof fn split_agrees<V>(at: At<V>, x: Tensor, y: Tensor, h: int, w: int, m: int)
    requires
        lawful(at),
        !x.split_heads(h, w).bad(),
        !y.split_heads(h, w).bad(),
        agrees(at, x, y, 1, m),
    ensures
        agrees(at, x.split_heads(h, w), y.split_heads(h, w), 2, m),
{
    assert forall|j: int| 0 <= j < m implies #[trigger] same(
        at,
        x.split_heads(h, w),
        y.split_heads(h, w),
        2,
        j,
    ) by {
        assert(same(at, x, y, 1, j));
    }
}

pub proof fn merge_agrees<V>(at: At<V>, x: Tensor, y: Tensor, m: int)
    requires
        lawful(at),
        !x.merge_heads().bad(),
        !y.merge_heads().bad(),
        agrees(at, x, y, 2, m),
    ensures
        agrees(at, x.merge_heads(), y.merge_heads(), 1, m),
{
    assert forall|j: int| 0 <= j < m implies #[trigger] same(at, x.merge_heads(), y.merge_heads(), 1, j) by {
        assert(same(at, x, y, 2, j));
    }
}

/// Heads repeated for the queries that share them.
pub proof fn repeat_agrees<V>(at: At<V>, x: Tensor, y: Tensor, times: int, m: int)
    requires
        lawful(at),
        !x.repeat_interleave(1, times).bad(),
        !y.repeat_interleave(1, times).bad(),
        agrees(at, x, y, 2, m),
    ensures
        agrees(at, x.repeat_interleave(1, times), y.repeat_interleave(1, times), 2, m),
{
    assert forall|j: int| 0 <= j < m implies #[trigger] same(
        at,
        x.repeat_interleave(1, times),
        y.repeat_interleave(1, times),
        2,
        j,
    ) by {
        assert(same(at, x, y, 2, j));
    }
}

/// Heads turned by the angles of their positions.
pub proof fn rope_agrees<V>(
    at: At<V>,
    x: Tensor,
    y: Tensor,
    theta: Scalar,
    start: int,
    t: int,
    u: int,
    w: int,
    m: int,
)
    requires
        lawful(at),
        !x.rope_with_tables(
            Tensor::rope_cos(theta, start, t, w),
            Tensor::rope_sin(theta, start, t, w),
        ).bad(),
        !y.rope_with_tables(
            Tensor::rope_cos(theta, start, u, w),
            Tensor::rope_sin(theta, start, u, w),
        ).bad(),
        m <= t,
        m <= u,
        agrees(at, x, y, 2, m),
    ensures
        agrees(
            at,
            x.rope_with_tables(
                Tensor::rope_cos(theta, start, t, w),
                Tensor::rope_sin(theta, start, t, w),
            ),
            y.rope_with_tables(
                Tensor::rope_cos(theta, start, u, w),
                Tensor::rope_sin(theta, start, u, w),
            ),
            2,
            m,
        ),
{
    let (ct, st) = (Tensor::rope_cos(theta, start, t, w), Tensor::rope_sin(theta, start, t, w));
    let (cu, su) = (Tensor::rope_cos(theta, start, u, w), Tensor::rope_sin(theta, start, u, w));
    assert forall|j: int| 0 <= j < m implies #[trigger] same(
        at,
        x.rope_with_tables(ct, st),
        y.rope_with_tables(cu, su),
        2,
        j,
    ) by {
        assert(same(at, x, y, 2, j));
        assert(same(at, ct, cu, 0, j));
        assert(same(at, st, su, 0, j));
    }
}

/// The two causal masks let each row look back in the same way.
pub proof fn causal_masks_look_back(t: int, u: int, j: int)
    requires
        0 <= j < t,
        j < u,
    ensures
        look_back(causal_tensor(t), causal_tensor(u), j),
{
    let (c, e) = (causal_data(t), causal_data(u));
    assert forall|h: int, i: int| 0 <= h < 1 && 0 <= i <= j implies #[trigger] mask_at(c, t, h, j, i)
        == mask_at(e, u, h, j, i) by {
        assert(h * t + j == j && h * u + j == j) by (nonlinear_arith)
            requires
                h == 0,
        ;
        causal_mask_rows(t, j, i);
        causal_mask_rows(u, j, i);
    }
    assert forall|h: int, i: int| 0 <= h < 1 && j < i < t implies #[trigger] mask_at(c, t, h, j, i)
        == neg_inf() by {
        assert(h * t + j == j) by (nonlinear_arith)
            requires
                h == 0,
        ;
        causal_mask_rows(t, j, i);
    }
    assert forall|h: int, i: int| 0 <= h < 1 && j < i < u implies #[trigger] mask_at(e, u, h, j, i)
        == neg_inf() by {
        assert(h * u + j == j) by (nonlinear_arith)
            requires
                h == 0,
        ;
        causal_mask_rows(u, j, i);
    }
    assert(rows_look_back(c, e, 1, t, u, j));
}

/// Attention under masks that hide what follows.
pub proof fn heads_mix_alike<V>(
    at: At<V>,
    q: Tensor,
    k: Tensor,
    v: Tensor,
    mask: Tensor,
    x: Tensor,
    y: Tensor,
    z: Tensor,
    hidden: Tensor,
    s: Option<Scalar>,
    m: int,
)
    requires
        lawful(at),
        !mixed_heads(q, k, v, s, mask).bad(),
        !mixed_heads(x, y, z, s, hidden).bad(),
        agrees(at, q, x, 2, m),
        agrees(at, k, y, 2, m),
        agrees(at, v, z, 2, m),
        forall|j: int| 0 <= j < m ==> #[trigger] look_back(mask, hidden, j),
    ensures
        agrees(at, mixed_heads(q, k, v, s, mask), mixed_heads(x, y, z, s, hidden), 2, m),
{
    assert forall|j: int| 0 <= j < m implies #[trigger] same(
        at,
        mixed_heads(q, k, v, s, mask),
        mixed_heads(x, y, z, s, hidden),
        2,
        j,
    ) by {
        assert(same(at, q, x, 2, j));
        assert(look_back(mask, hidden, j));
    }
}

/// Embeddings of tokens that begin alike.
pub proof fn embeddings_agree<V>(
    at: At<V>,
    table: Seq<Scalar>,
    vocab: int,
    width: int,
    a: Seq<u32>,
    b: Seq<u32>,
    m: int,
)
    requires
        lawful(at),
        table.len() == vocab * width,
        vocab >= 1,
        width >= 1,
        a.len() >= 1,
        b.len() >= 1,
        vocab * width <= usize::MAX,
        a.len() * width <= usize::MAX,
        b.len() * width <= usize::MAX,
        begin_alike(a, b, m),
    ensures
        agrees(
            at,
            Tensor::embed_tokens(table, vocab, width, a),
            Tensor::embed_tokens(table, vocab, width, b),
            1,
            m,
        ),
{
    let rows = Tensor::constant(table, seq![vocab, width]);
    let (t, u) = (a.len() as int, b.len() as int);
    picked_has(table, vocab, width, a);
    picked_has(table, vocab, width, b);
    let (px, py) = (rows.index_select(0, Tensor::ids(a)), rows.index_select(0, Tensor::ids(b)));
    let (d, e) = (seq![1, t, width], seq![1, u, width]);
    assert(regroups_front(px.dims, py.dims, d, e, 0, 1));
    assert forall|j: int| 0 <= j < m implies #[trigger] same(
        at,
        Tensor::embed_tokens(table, vocab, width, a),
        Tensor::embed_tokens(table, vocab, width, b),
        1,
        j,
    ) by {
        assert(a[j] == b[j]);
        assert(same(at, Tensor::ids(a), Tensor::ids(b), 0, j));
        assert(same(at, px, py, 0, j));
        assert(same(at, px.reshape(d), py.reshape(e), 1, j));
    }
}

proof fn picked_has(table: Seq<Scalar>, vocab: int, width: int, tokens: Seq<u32>)
    requires
        table.len() == vocab * width,
        vocab >= 1,
        width >= 1,
        tokens.len() >= 1,
        vocab * width <= usize::MAX,
        tokens.len() * width <= usize::MAX,
    ensures
        has(
            Tensor::constant(table, seq![vocab, width]).index_select(0, Tensor::ids(tokens)),
            seq![tokens.len() as int, width],
        ),
        has(
            Tensor::embed_tokens(table, vocab, width, tokens),
            seq![1, tokens.len() as int, width],
        ),
{
    broadcast use extents;

    let n = tokens.len() as int;
    products(vocab, width, 1, 1, 1, 1);
    constant_has(table, seq![vocab, width]);
    let picked = Tensor::constant(table, seq![vocab, width]).index_select(0, Tensor::ids(tokens));
    assert(picked.dims =~= seq![n, width]);
    products(n, width, 1, 1, 1, 1);
    products(1, n, width, 1, 1, 1);
    assert(1 * n * width == n * width);
    reshape_has(picked, seq![1, n, width]);
}

/// A matrix applied to rows.
pub proof fn rows_map_alike<V>(
    at: At<V>,
    x: Tensor,
    y: Tensor,
    w: Seq<Scalar>,
    i: int,
    o: int,
    t: int,
    u: int,
    m: int,
)
    requires
        lawful(at),
        has(x, seq![1, t, i]),
        has(y, seq![1, u, i]),
        i >= 1,
        o >= 1,
        i * o <= usize::MAX,
        w.len() == i * o,
        agrees(at, x, y, 1, m),
    ensures
        has(x.linear(w, i, o), seq![1, t, o]),
        has(y.linear(w, i, o), seq![1, u, o]),
        agrees(at, x.linear(w, i, o), y.linear(w, i, o), 1, m),
{
    broadcast use extents;

    linear_agrees(at, x, y, w, i, o, m);
}

/// A matrix applied to rows, by heads.
pub proof fn heads_map_alike<V>(
    at: At<V>,
    x: Tensor,
    y: Tensor,
    w: Seq<Scalar>,
    i: int,
    heads: int,
    width: int,
    t: int,
    u: int,
    m: int,
)
    requires
        lawful(at),
        has(x, seq![1, t, i]),
        has(y, seq![1, u, i]),
        i >= 1,
        heads * width >= 1,
        i * (heads * width) <= usize::MAX,
        w.len() == i * (heads * width),
        agrees(at, x, y, 1, m),
    ensures
        has(
            x.linear(w, i, heads * width).split_heads(heads, width),
            seq![1, heads, t, width],
        ),
        has(
            y.linear(w, i, heads * width).split_heads(heads, width),
            seq![1, heads, u, width],
        ),
        agrees(
            at,
            x.linear(w, i, heads * width).split_heads(heads, width),
            y.linear(w, i, heads * width).split_heads(heads, width),
            2,
            m,
        ),
{
    broadcast use extents;

    let o = heads * width;
    rows_map_alike(at, x, y, w, i, o, t, u, m);
    split_agrees(at, x.linear(w, i, o), y.linear(w, i, o), heads, width, m);
}

/// Heads turned by their positions, with their extents.
pub proof fn heads_turn_alike<V>(
    at: At<V>,
    x: Tensor,
    y: Tensor,
    theta: Scalar,
    start: int,
    heads: int,
    w: int,
    t: int,
    u: int,
    m: int,
)
    requires
        lawful(at),
        has(x, seq![1, heads, t, w]),
        has(y, seq![1, heads, u, w]),
        w % 2 == 0,
        m <= t,
        m <= u,
        agrees(at, x, y, 2, m),
    ensures
        ({
            let rx = x.rope_with_tables(
                Tensor::rope_cos(theta, start, t, w),
                Tensor::rope_sin(theta, start, t, w),
            );
            let ry = y.rope_with_tables(
                Tensor::rope_cos(theta, start, u, w),
                Tensor::rope_sin(theta, start, u, w),
            );
            &&& has(rx, seq![1, heads, t, w])
            &&& has(ry, seq![1, heads, u, w])
            &&& agrees(at, rx, ry, 2, m)
        }),
{
    broadcast use extents;

    rope_agrees(at, x, y, theta, start, t, u, w, m);
}

/// Key or value heads repeated, with their extents.
pub proof fn heads_repeat_alike<V>(
    at: At<V>,
    x: Tensor,
    y: Tensor,
    heads: int,
    times: int,
    w: int,
    t: int,
    u: int,
    m: int,
)
    requires
        lawful(at),
        has(x, seq![1, heads, t, w]),
        has(y, seq![1, heads, u, w]),
        heads * times <= usize::MAX,
        agrees(at, x, y, 2, m),
    ensures
        has(x.repeat_interleave(1, times), seq![1, heads * times, t, w]),
        has(y.repeat_interleave(1, times), seq![1, heads * times, u, w]),
        agrees(at, x.repeat_interleave(1, times), y.repeat_interleave(1, times), 2, m),
{
    broadcast use extents;

    assert(x.repeat_interleave(1, times).dims =~= seq![1, heads * times, t, w]);
    assert(y.repeat_interleave(1, times).dims =~= seq![1, heads * times, u, w]);
    repeat_agrees(at, x, y, times, m);
}

/// Masked attention by heads, as rows.
pub proof fn attention_joins_alike<V>(
    at: At<V>,
    q: Tensor,
    k: Tensor,
    v: Tensor,
    mask: Tensor,
    x: Tensor,
    y: Tensor,
    z: Tensor,
    hidden: Tensor,
    s: Scalar,
    heads: int,
    w: int,
    t: int,
    u: int,
    m: int,
)
    requires
        lawful(at),
        has(q, seq![1, heads, t, w]),
        has(k, seq![1, heads, t, w]),
        has(v, seq![1, heads, t, w]),
        has(x, seq![1, heads, u, w]),
        has(y, seq![1, heads, u, w]),
        has(z, seq![1, heads, u, w]),
        !mask.bad(),
        !hidden.bad(),
        lies_under(mask.dims, seq![1, heads, t, t]),
        lies_under(hidden.dims, seq![1, heads, u, u]),
        heads * w <= usize::MAX,
        agrees(at, q, x, 2, m),
        agrees(at, k, y, 2, m),
        agrees(at, v, z, 2, m),
        forall|j: int| 0 <= j < m ==> #[trigger] look_back(mask, hidden, j),
    ensures
        ({
            let a = masked_attention(q, k, v, s, mask);
            let b = masked_attention(x, y, z, s, hidden);
            &&& has(a, seq![1, heads, t, w])
            &&& has(b, seq![1, heads, u, w])
            &&& agrees(at, a, b, 2, m)
            &&& has(a.merge_heads(), seq![1, t, heads * w])
            &&& has(b.merge_heads(), seq![1, u, heads * w])
            &&& agrees(at, a.merge_heads(), b.merge_heads(), 1, m)
        }),
{
    broadcast use extents;

    masked_attention_has(q, k, v, s, mask, 1, heads, t, w);
    masked_attention_has(x, y, z, s, hidden, 1, heads, u, w);
    heads_mix_alike(at, q, k, v, mask, x, y, z, hidden, Some(s), m);
    merge_agrees(at, masked_attention(q, k, v, s, mask), masked_attention(x, y, z, s, hidden), m);
}

pub proof fn swiglu_agrees<V>(
    at: At<V>,
    x: Tensor,
    y: Tensor,
    gate: Seq<Scalar>,
    up: Seq<Scalar>,
    down: Seq<Scalar>,
    width: int,
    inner: int,
    t: int,
    u: int,
    m: int,
)
    requires
        lawful(at),
        has(x, seq![1, t, width]),
        has(y, seq![1, u, width]),
        width >= 1,
        inner >= 1,
        width * inner <= usize::MAX,
        gate.len() == width * inner,
        up.len() == width * inner,
        down.len() == inner * width,
        agrees(at, x, y, 1, m),
    ensures
        has(swiglu(x, gate, up, down, width, inner), seq![1, t, width]),
        has(swiglu(y, gate, up, down, width, inner), seq![1, u, width]),
        agrees(
            at,
            swiglu(x, gate, up, down, width, inner),
            swiglu(y, gate, up, down, width, inner),
            1,
            m,
        ),
{
    broadcast use extents;

    assert(inner * width == width * inner) by (nonlinear_arith);
    rows_map_alike(at, x, y, gate, width, inner, t, u, m);
    rows_map_alike(at, x, y, up, width, inner, t, u, m);
    let (gx, gy) = (x.linear(gate, width, inner), y.linear(gate, width, inner));
    let (ux, uy) = (x.linear(up, width, inner), y.linear(up, width, inner));
    let (px, py) = (gx.silu().mul(ux), gy.silu().mul(uy));
    assert forall|j: int| 0 <= j < m implies #[trigger] same(at, px, py, 1, j) by {
        assert(same(at, gx, gy, 1, j));
        assert(same(at, ux, uy, 1, j));
        assert(same(at, gx.silu(), gy.silu(), 1, j));
    }
    rows_map_alike(at, px, py, down, inner, width, t, u, m);
}

/// Attention with rotary positions, in which query heads share keys and values.
pub open spec fn shared_attention(
    n: Tensor,
    wq: Seq<Scalar>,
    wk: Seq<Scalar>,
    wv: Seq<Scalar>,
    wo: Seq<Scalar>,
    heads: int,
    kvh: int,
    d: int,
    theta: Scalar,
    start: int,
    t: int,
    scale: Scalar,
    mask: Tensor,
) -> Tensor {
    let h = heads * d;
    let cos = Tensor::rope_cos(theta, start, t, d);
    let sin = Tensor::rope_sin(theta, start, t, d);
    let rep = heads / kvh;
    let q = n.linear(wq, h, h).split_heads(heads, d).rope_with_tables(cos, sin);
    let k = n.linear(wk, h, kvh * d).split_heads(kvh, d).rope_with_tables(cos, sin);
    let v = n.linear(wv, h, kvh * d).split_heads(kvh, d);
    masked_attention(
        q,
        k.repeat_interleave(1, rep),
        v.repeat_interleave(1, rep),
        scale,
        mask,
    ).merge_heads().linear(wo, h, h)
}

pub proof fn shared_attention_agrees<V>(
    at: At<V>,
    x: Tensor,
    y: Tensor,
    wq: Seq<Scalar>,
    wk: Seq<Scalar>,
    wv: Seq<Scalar>,
    wo: Seq<Scalar>,
    heads: int,
    kvh: int,
    d: int,
    theta: Scalar,
    start: int,
    scale: Scalar,
    mask: Tensor,
    hidden: Tensor,
    t: int,
    u: int,
    m: int,
)
    requires
        lawful(at),
        has(x, seq![1, t, heads * d]),
        has(y, seq![1, u, heads * d]),
        heads * d >= 1,
        heads >= 0,
        kvh >= 1,
        d >= 1,
        heads % kvh == 0,
        d % 2 == 0,
        heads * d <= usize::MAX,
        (heads * d) * (heads * d) <= usize::MAX,
        wq.len() == (heads * d) * (heads * d),
        wk.len() == (heads * d) * (kvh * d),
        wv.len() == (heads * d) * (kvh * d),
        wo.len() == (heads * d) * (heads * d),
        has(mask, seq![1, 1, t, t]),
        has(hidden, seq![1, 1, u, u]),
        m <= t,
        m <= u,
        agrees(at, x, y, 1, m),
        forall|j: int| 0 <= j < m ==> #[trigger] look_back(mask, hidden, j),
    ensures
        has(
            shared_attention(x, wq, wk, wv, wo, heads, kvh, d, theta, start, t, scale, mask),
            seq![1, t, heads * d],
        ),
        has(
            shared_attention(y, wq, wk, wv, wo, heads, kvh, d, theta, start, u, scale, hidden),
            seq![1, u, heads * d],
        ),
        agrees(
            at,
            shared_attention(x, wq, wk, wv, wo, heads, kvh, d, theta, start, t, scale, mask),
            shared_attention(y, wq, wk, wv, wo, heads, kvh, d, theta, start, u, scale, hidden),
            1,
            m,
        ),
{
    let h = heads * d;
    let kv = kvh * d;
    let rep = heads / kvh;
    heads_are_shared(heads, kvh, d);
    assert(h * kv <= h * h) by (nonlinear_arith)
        requires
            1 <= kv <= h,
    ;
    assert(heads <= heads * d) by (nonlinear_arith)
        requires
            d >= 1,
            heads >= 0,
    ;
    let (ct, st) = (Tensor::rope_cos(theta, start, t, d), Tensor::rope_sin(theta, start, t, d));
    let (cu, su) = (Tensor::rope_cos(theta, start, u, d), Tensor::rope_sin(theta, start, u, d));
    heads_map_alike(at, x, y, wq, h, heads, d, t, u, m);
    heads_map_alike(at, x, y, wk, h, kvh, d, t, u, m);
    heads_map_alike(at, x, y, wv, h, kvh, d, t, u, m);
    let (qx, qy) = (x.linear(wq, h, h).split_heads(heads, d), y.linear(wq, h, h).split_heads(heads, d));
    let (kx, ky) = (x.linear(wk, h, kv).split_heads(kvh, d), y.linear(wk, h, kv).split_heads(kvh, d));
    let (vx, vy) = (x.linear(wv, h, kv).split_heads(kvh, d), y.linear(wv, h, kv).split_heads(kvh, d));
    heads_turn_alike(at, qx, qy, theta, start, heads, d, t, u, m);
    heads_turn_alike(at, kx, ky, theta, start, kvh, d, t, u, m);
    let (qx, qy) = (qx.rope_with_tables(ct, st), qy.rope_with_tables(cu, su));
    let (kx, ky) = (kx.rope_with_tables(ct, st), ky.rope_with_tables(cu, su));
    heads_repeat_alike(at, kx, ky, kvh, rep, d, t, u, m);
    heads_repeat_alike(at, vx, vy, kvh, rep, d, t, u, m);
    let (kx, ky) = (kx.repeat_interleave(1, rep), ky.repeat_interleave(1, rep));
    let (vx, vy) = (vx.repeat_interleave(1, rep), vy.repeat_interleave(1, rep));
    assert(lies_under(mask.dims, seq![1, heads, t, t]));
    assert(lies_under(hidden.dims, seq![1, heads, u, u]));
    attention_joins_alike(at, qx, kx, vx, mask, qy, ky, vy, hidden, scale, heads, d, t, u, m);
    rows_map_alike(
        at,
        masked_attention(qx, kx, vx, scale, mask).merge_heads(),
        masked_attention(qy, ky, vy, scale, hidden).merge_heads(),
        wo,
        h,
        h,
        t,
        u,
        m,
    );
}

/// A piece of the features of each row.
pub proof fn piece_agrees<V>(at: At<V>, x: Tensor, y: Tensor, from: int, n: int, t: int, u: int, w: int, m: int)
    requires
        lawful(at),
        has(x, seq![1, t, w]),
        has(y, seq![1, u, w]),
        0 <= from,
        0 <= n,
        from + n <= w,
        agrees(at, x, y, 1, m),
    ensures
        has(x.narrow(2, from, n), seq![1, t, n]),
        has(y.narrow(2, from, n), seq![1, u, n]),
        agrees(at, x.narrow(2, from, n), y.narrow(2, from, n), 1, m),
{
    broadcast use extents;

    assert(x.narrow(2, from, n).dims =~= seq![1, t, n]);
    assert(y.narrow(2, from, n).dims =~= seq![1, u, n]);
    assert forall|j: int| 0 <= j < m implies #[trigger] same(
        at,
        x.narrow(2, from, n),
        y.narrow(2, from, n),
        1,
        j,
    ) by {
        assert(same(at, x, y, 1, j));
    }
}

/// Rows convolved over time, each feature by itself: zeros are put in front, as
/// many as the kernel reaches back.
pub open spec fn convolved_rows(x: Tensor, w: Seq<Scalar>, b: Seq<Scalar>, c: int, k: int) -> Tensor {
    x.permute(seq![0, 2, 1]).pad_with_zeros(2, k - 1, 0).causal_conv1d(
        Tensor::constant(w, seq![c, 1, k]),
        Tensor::constant(b, seq![c]),
        true,
    ).permute(seq![0, 2, 1])
}

proof fn convolved_rows_have(x: Tensor, w: Seq<Scalar>, b: Seq<Scalar>, c: int, k: int, t: int)
    requires
        has(x, seq![1, t, c]),
        c >= 1,
        k >= 1,
        t >= 1,
        c <= usize::MAX,
        c * k <= usize::MAX,
        w.len() == c * k,
        b.len() == c,
        t + k <= usize::MAX,
    ensures
        ({
            let f = x.permute(seq![0, 2, 1]);
            let p = f.pad_with_zeros(2, k - 1, 0);
            let kernel = Tensor::constant(w, seq![c, 1, k]);
            let v = p.causal_conv1d(kernel, Tensor::constant(b, seq![c]), true);
            &&& has(f, seq![1, c, t])
            &&& has(p, seq![1, c, t + k - 1])
            &&& has(kernel, seq![c, 1, k])
            &&& has(v, seq![1, c, t])
            &&& has(convolved_rows(x, w, b, c, k), seq![1, t, c])
        }),
{
    broadcast use extents;

    products(c, 1, k, 1, 1, 1);
    assert(c * 1 * k == c * k);
    constant_has(w, seq![c, 1, k]);
    let p = x.permute(seq![0, 2, 1]).pad_with_zeros(2, k - 1, 0);
    assert(p.dims =~= seq![1, c, t + k - 1]);
}

pub proof fn convolved_rows_agree<V>(
    at: At<V>,
    x: Tensor,
    y: Tensor,
    w: Seq<Scalar>,
    b: Seq<Scalar>,
    c: int,
    k: int,
    t: int,
    u: int,
    m: int,
)
    requires
        lawful(at),
        has(x, seq![1, t, c]),
        has(y, seq![1, u, c]),
        1 <= c <= usize::MAX,
        k >= 1,
        t >= 1,
        u >= 1,
        c * k <= usize::MAX,
        w.len() == c * k,
        b.len() == c,
        t + k <= usize::MAX,
        u + k <= usize::MAX,
        m <= t,
        m <= u,
        agrees(at, x, y, 1, m),
    ensures
        has(convolved_rows(x, w, b, c, k), seq![1, t, c]),
        has(convolved_rows(y, w, b, c, k), seq![1, u, c]),
        agrees(at, convolved_rows(x, w, b, c, k), convolved_rows(y, w, b, c, k), 1, m),
{
    convolved_rows_have(x, w, b, c, k, t);
    convolved_rows_have(y, w, b, c, k, u);
    let p = seq![0int, 2, 1];
    let (fx, fy) = (x.permute(p), y.permute(p));
    let (px, py) = (fx.pad_with_zeros(2, k - 1, 0), fy.pad_with_zeros(2, k - 1, 0));
    let kernel = Tensor::constant(w, seq![c, 1, k]);
    let bias = Tensor::constant(b, seq![c]);
    let (vx, vy) = (px.causal_conv1d(kernel, bias, true), py.causal_conv1d(kernel, bias, true));
    assert forall|j: int| 0 <= j < m implies #[trigger] same(at, fx, fy, 2, j) by {
        assert(same(at, x, y, 1, j));
        assert(p[2] == 1);
    }
    assert forall|j: int| 0 <= j < m + k - 1 implies #[trigger] same(at, px, py, 2, j) by {
        if j >= k - 1 {
            assert(same(at, fx, fy, 2, j - (k - 1)));
        }
    }
    assert forall|j: int| 0 <= j < m implies #[trigger] same(at, vx.permute(p), vy.permute(p), 1, j) by {
        assert forall|i: int| 0 <= i < kernel.dim(2) implies #[trigger] same(at, px, py, 2, j + i) by {}
        assert(same(at, vx, vy, 2, j));
        assert(p[1] == 2);
    }
}

} // verus!
