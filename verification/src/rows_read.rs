//! Shared parts of models on operands whose rows are known.

use crate::common::{full_attention, mask_value, masked_attention, swiglu, tied_head};
use crate::extents::{
    broadcast_add_under, extents, has, lies_under, products, reshape_has, reshape_merges, reshape_splits,
};
use crate::formulas::{
    affine_reads, affine_row, average, averages_alike, dot, gated_alike, gated_row, layer_norm_reads, layer_normed,
    mixed, mixed_with, mixed_with_reads, norms_alike, rms_norm_reads, rms_normed, shares_mix, swiglu_reads, head_of, Heads, Rows,
};
use crate::lazy::Tensor;
use crate::meaning::{angle, at, at2, at3, at4, elements, low4, lows, number, row3, row4, sum, Functions, Row};
use crate::readings::{
    lows4, mapped, mapped_alike, pick, place2, place3, place4, read_reshape, readings, row2, sums_alike, turned,
};
use crate::scalar::Scalar;
use vstd::prelude::*;

verus! {

/// A tensor `(1, seq, n)` holds these rows.
pub open spec fn holds(f: Functions, t: Tensor, x: Rows, s: int, n: int) -> bool {
    forall|i: int, k: int| 0 <= i < s && 0 <= k < n ==> #[trigger] at3(f, t, 0, i, k) == x(i)(k)
}

/// A tensor `(1, heads, seq, n)` holds these heads.
pub open spec fn heads_hold(f: Functions, t: Tensor, x: Heads, heads: int, s: int, n: int) -> bool {
    forall|g: int, i: int, k: int|
        0 <= g < heads && 0 <= i < s && 0 <= k < n ==> #[trigger] at4(f, t, 0, g, i, k) == x(g, i)(k)
}

/// Rows mapped by a matrix.
pub open spec fn linear_rows(f: Functions, x: Rows, w: Seq<Scalar>, n: int, o: int) -> Rows {
    |i: int| |j: int| mapped(f, x(i), w, n, o, j)
}

/// Rows mapped by a matrix, plus a bias.
pub open spec fn affine_rows(f: Functions, x: Rows, w: Seq<Scalar>, b: Seq<Scalar>, n: int, o: int) -> Rows {
    |i: int| |j: int| affine_row(f, x(i), w, b, n, o, j)
}

/// Rows with mean zero and variance one, scaled and shifted.
pub open spec fn layer_normed_rows(
    f: Functions,
    x: Rows,
    gain: Seq<Scalar>,
    bias: Seq<Scalar>,
    n: int,
    eps: Scalar,
) -> Rows {
    |i: int| |j: int| layer_normed(f, x(i), gain, bias, n, eps, j)
}

/// Rows with mean square one, scaled.
pub open spec fn rms_normed_rows(f: Functions, x: Rows, gain: Seq<Scalar>, n: int, eps: Scalar) -> Rows {
    |i: int| |j: int| rms_normed(f, x(i), gain, n, eps, j)
}

/// `down(silu(gate x) * up x)` of each row.
pub open spec fn gated_rows(
    f: Functions,
    x: Rows,
    gate: Seq<Scalar>,
    up: Seq<Scalar>,
    down: Seq<Scalar>,
    n: int,
    inner: int,
) -> Rows {
    |i: int| |j: int| gated_row(f, x(i), gate, up, down, n, inner, j)
}

/// The sum of two rows.
pub open spec fn sum_rows(x: Rows, y: Rows) -> Rows {
    |i: int| |j: int| x(i)(j) + y(i)(j)
}

/// The features of each row from `from` on.
pub open spec fn cut_rows(x: Rows, from: int) -> Rows {
    |i: int| |j: int| x(i)(from + j)
}

/// A function of each number.
pub open spec fn each(g: spec_fn(real) -> real, x: Rows) -> Rows {
    |i: int| |j: int| g(x(i)(j))
}

/// The heads of each row.
pub open spec fn heads_of(x: Rows, d: int) -> Heads {
    |g: int, i: int| |k: int| x(i)(g * d + k)
}

/// What each position attends to, where `hidden` says which positions it does not
/// see.
pub open spec fn mixed_rows(
    f: Functions,
    q: Heads,
    k: Heads,
    v: Heads,
    d: int,
    rep: int,
    t: int,
    scale: real,
    hidden: spec_fn(int, int) -> bool,
) -> Rows {
    |i: int| |c: int| mixed(f, q, k, v, d, rep, t, scale, |o: int| hidden(i, o), i, c)
}

/// No position is hidden from any.
pub open spec fn all_seen() -> spec_fn(int, int) -> bool {
    |i: int, o: int| false
}

/// What each position attends to, where `bias` is added to the scores.
pub open spec fn mixed_rows_with(
    f: Functions,
    q: Heads,
    k: Heads,
    v: Heads,
    d: int,
    rep: int,
    t: int,
    scale: real,
    bias: spec_fn(int, int, int) -> real,
    hidden: spec_fn(int, int) -> bool,
) -> Rows {
    |i: int| |c: int|
        mixed_with(f, q, k, v, d, rep, t, scale, |g: int, o: int| bias(g, i, o), |o: int| hidden(i, o), i, c)
}

pub proof fn linear_holds(f: Functions, t: Tensor, x: Rows, w: Seq<Scalar>, n: int, o: int, s: int)
    requires
        has(t, seq![1, s, n]),
        holds(f, t, x, s, n),
        w.len() == n * o,
        n >= 1,
        1 <= o,
        n * o <= usize::MAX,
    ensures
        has(t.linear(w, n, o), seq![1, s, o]),
        holds(f, t.linear(w, n, o), linear_rows(f, x, w, n, o), s, o),
{
    broadcast use {extents, readings};

    let y = t.linear(w, n, o);
    assert forall|i: int, j: int| 0 <= i < s && 0 <= j < o implies #[trigger] at3(f, y, 0, i, j) == linear_rows(
        f,
        x,
        w,
        n,
        o,
    )(i)(j) by {
        assert forall|k: int| 0 <= k < n implies #[trigger] row3(f, t, 0, i)(k) == x(i)(k) by {
            assert(at3(f, t, 0, i, k) == x(i)(k));
        }
        mapped_alike(f, row3(f, t, 0, i), x(i), w, n, o, j);
    }
}

pub proof fn affine_holds(
    f: Functions,
    t: Tensor,
    x: Rows,
    w: Seq<Scalar>,
    b: Seq<Scalar>,
    n: int,
    o: int,
    s: int,
)
    requires
        has(t, seq![1, s, n]),
        holds(f, t, x, s, n),
        w.len() == n * o,
        n >= 1,
        1 <= o <= usize::MAX,
        n * o <= usize::MAX,
        b.len() == o,
    ensures
        has(t.affine(w, b, n, o), seq![1, s, o]),
        holds(f, t.affine(w, b, n, o), affine_rows(f, x, w, b, n, o), s, o),
{
    broadcast use extents;

    let y = t.affine(w, b, n, o);
    assert forall|i: int, j: int| 0 <= i < s && 0 <= j < o implies #[trigger] at3(f, y, 0, i, j) == affine_rows(
        f,
        x,
        w,
        b,
        n,
        o,
    )(i)(j) by {
        assert forall|k: int| 0 <= k < n implies #[trigger] row3(f, t, 0, i)(k) == x(i)(k) by {
            assert(at3(f, t, 0, i, k) == x(i)(k));
        }
        mapped_alike(f, row3(f, t, 0, i), x(i), w, n, o, j);
        affine_reads(f, t, w, b, n, o, 0, i, j);
    }
}

pub proof fn layer_norm_holds(
    f: Functions,
    t: Tensor,
    x: Rows,
    gain: Seq<Scalar>,
    bias: Seq<Scalar>,
    n: int,
    eps: Scalar,
    s: int,
)
    requires
        has(t, seq![1, s, n]),
        holds(f, t, x, s, n),
        gain.len() == n,
        bias.len() == n,
        1 <= n <= usize::MAX,
    ensures
        has(t.layer_norm(gain, bias, n, eps), seq![1, s, n]),
        holds(f, t.layer_norm(gain, bias, n, eps), layer_normed_rows(f, x, gain, bias, n, eps), s, n),
{
    broadcast use extents;

    let y = t.layer_norm(gain, bias, n, eps);
    assert forall|i: int, j: int| 0 <= i < s && 0 <= j < n implies #[trigger] at3(f, y, 0, i, j)
        == layer_normed_rows(f, x, gain, bias, n, eps)(i)(j) by {
        assert forall|k: int| 0 <= k < n implies #[trigger] row3(f, t, 0, i)(k) == x(i)(k) by {
            assert(at3(f, t, 0, i, k) == x(i)(k));
        }
        norms_alike(f, row3(f, t, 0, i), x(i), n, number(f, eps), j);
        layer_norm_reads(f, t, gain, bias, n, eps, 0, i, j);
    }
}

pub proof fn rms_norm_holds(f: Functions, t: Tensor, x: Rows, gain: Seq<Scalar>, n: int, eps: Scalar, s: int)
    requires
        has(t, seq![1, s, n]),
        holds(f, t, x, s, n),
        gain.len() == n,
        1 <= n <= usize::MAX,
    ensures
        has(t.rms_norm(gain, n, eps), seq![1, s, n]),
        holds(f, t.rms_norm(gain, n, eps), rms_normed_rows(f, x, gain, n, eps), s, n),
{
    broadcast use extents;

    let y = t.rms_norm(gain, n, eps);
    assert forall|i: int, j: int| 0 <= i < s && 0 <= j < n implies #[trigger] at3(f, y, 0, i, j)
        == rms_normed_rows(f, x, gain, n, eps)(i)(j) by {
        assert forall|k: int| 0 <= k < n implies #[trigger] row3(f, t, 0, i)(k) == x(i)(k) by {
            assert(at3(f, t, 0, i, k) == x(i)(k));
        }
        norms_alike(f, row3(f, t, 0, i), x(i), n, number(f, eps), j);
        rms_norm_reads(f, t, gain, n, eps, 0, i, j);
    }
}

pub proof fn swiglu_holds(
    f: Functions,
    t: Tensor,
    x: Rows,
    gate: Seq<Scalar>,
    up: Seq<Scalar>,
    down: Seq<Scalar>,
    n: int,
    inner: int,
    s: int,
)
    requires
        has(t, seq![1, s, n]),
        holds(f, t, x, s, n),
        n >= 1,
        inner >= 1,
        n * inner <= usize::MAX,
        gate.len() == n * inner,
        up.len() == n * inner,
        down.len() == inner * n,
    ensures
        has(swiglu(t, gate, up, down, n, inner), seq![1, s, n]),
        holds(f, swiglu(t, gate, up, down, n, inner), gated_rows(f, x, gate, up, down, n, inner), s, n),
{
    let y = swiglu(t, gate, up, down, n, inner);
    crate::common::swiglu_has(t, gate, up, down, n, inner, 1, s);
    assert forall|i: int, j: int| 0 <= i < s && 0 <= j < n implies #[trigger] at3(f, y, 0, i, j) == gated_rows(
        f,
        x,
        gate,
        up,
        down,
        n,
        inner,
    )(i)(j) by {
        assert forall|k: int| 0 <= k < n implies #[trigger] row3(f, t, 0, i)(k) == x(i)(k) by {
            assert(at3(f, t, 0, i, k) == x(i)(k));
        }
        swiglu_reads(f, t, gate, up, down, n, inner, 1, s, 0, i, j);
        gated_alike(f, row3(f, t, 0, i), x(i), gate, up, down, n, inner, j);
    }
}

pub proof fn sum_holds(f: Functions, t: Tensor, u: Tensor, x: Rows, y: Rows, s: int, n: int)
    requires
        has(t, seq![1, s, n]),
        has(u, seq![1, s, n]),
        holds(f, t, x, s, n),
        holds(f, u, y, s, n),
    ensures
        has(t.add(u), seq![1, s, n]),
        holds(f, t.add(u), sum_rows(x, y), s, n),
{
    broadcast use {extents, readings};

    assert forall|i: int, j: int| 0 <= i < s && 0 <= j < n implies #[trigger] at3(f, t.add(u), 0, i, j) == sum_rows(
        x,
        y,
    )(i)(j) by {
        assert(at3(f, t, 0, i, j) == x(i)(j));
        assert(at3(f, u, 0, i, j) == y(i)(j));
    }
}

pub proof fn cut_holds(f: Functions, t: Tensor, x: Rows, s: int, n: int, from: int, l: int)
    requires
        has(t, seq![1, s, n]),
        holds(f, t, x, s, n),
        0 <= from,
        0 <= l,
        from + l <= n,
    ensures
        has(t.narrow(2, from, l), seq![1, s, l]),
        holds(f, t.narrow(2, from, l), cut_rows(x, from), s, l),
{
    broadcast use {extents, readings};

    let y = t.narrow(2, from, l);
    assert(y.dims =~= seq![1, s, l]);
    assert forall|i: int, j: int| 0 <= i < s && 0 <= j < l implies #[trigger] at3(f, y, 0, i, j) == cut_rows(
        x,
        from,
    )(i)(j) by {
        assert(at3(f, t, 0, i, j + from) == x(i)(j + from));
    }
}

pub proof fn split_holds(f: Functions, t: Tensor, x: Rows, heads: int, d: int, s: int)
    requires
        has(t, seq![1, s, heads * d]),
        holds(f, t, x, s, heads * d),
        heads >= 1,
        d >= 1,
    ensures
        has(t.split_heads(heads, d), seq![1, heads, s, d]),
        heads_hold(f, t.split_heads(heads, d), heads_of(x, d), heads, s, d),
{
    broadcast use {extents, readings};

    let y = t.split_heads(heads, d);
    assert(y.dims =~= seq![1, heads, s, d]);
    assert forall|g: int, i: int, k: int| 0 <= g < heads && 0 <= i < s && 0 <= k < d implies #[trigger] at4(
        f,
        y,
        0,
        g,
        i,
        k,
    ) == heads_of(x, d)(g, i)(k) by {
        assert(0 <= g * d + k < heads * d) by (nonlinear_arith)
            requires
                0 <= g < heads,
                0 <= k < d,
        ;
        assert(at3(f, t, 0, i, g * d + k) == x(i)(g * d + k));
    }
}

/// The heads of rows of keys or values, each `rep` times.
pub proof fn repeat_holds(f: Functions, t: Tensor, x: Heads, kvh: int, rep: int, d: int, s: int)
    requires
        has(t, seq![1, kvh, s, d]),
        heads_hold(f, t, x, kvh, s, d),
        rep >= 1,
        kvh * rep <= usize::MAX,
    ensures
        has(t.repeat_interleave(1, rep), seq![1, kvh * rep, s, d]),
        forall|g: int, i: int, k: int|
            0 <= g < kvh * rep && 0 <= i < s && 0 <= k < d ==> #[trigger] at4(
                f,
                t.repeat_interleave(1, rep),
                0,
                g,
                i,
                k,
            ) == x(g / rep, i)(k),
{
    broadcast use {extents, readings};

    let y = t.repeat_interleave(1, rep);
    assert(y.dims =~= seq![1, kvh * rep, s, d]);
    assert forall|g: int, i: int, k: int| 0 <= g < kvh * rep && 0 <= i < s && 0 <= k < d implies #[trigger] at4(
        f,
        y,
        0,
        g,
        i,
        k,
    ) == x(g / rep, i)(k) by {
        assert(0 <= g / rep < kvh) by (nonlinear_arith)
            requires
                0 <= g < kvh * rep,
                rep >= 1,
        ;
        assert(at4(f, t, 0, g / rep, i, k) == x(g / rep, i)(k));
    }
}

/// A mask `(1, 1, s, t)` that hides some positions and leaves the scores of the
/// others as they are.
pub open spec fn hides(f: Functions, mask: Tensor, hidden: spec_fn(int, int) -> bool, s: int, t: int) -> bool {
    &&& forall|i: int, o: int| 0 <= i < s && 0 <= o < t ==> #[trigger] low4(mask, 0, 0, i, o) == hidden(i, o)
    &&& forall|i: int, o: int|
        0 <= i < s && 0 <= o < t && !hidden(i, o) ==> #[trigger] at4(f, mask, 0, 0, i, o) == 0real
}

/// The mask over what comes later.
pub proof fn causal_mask_hides(f: Functions, s: int)
    requires
        s >= 1,
        s * s <= usize::MAX,
    ensures
        has(Tensor::causal_mask(s).reshape(seq![1, 1, s, s]), seq![1, 1, s, s]),
        hides(f, Tensor::causal_mask(s).reshape(seq![1, 1, s, s]), |i: int, o: int| o > i, s, s),
{
    broadcast use extents;

    let c = Tensor::causal_mask(s);
    products(s, s, 1, 1, 1, 1);
    products(1, 1, s, s, 1, 1);
    assert(1 * 1 * s * s == s * s) by (nonlinear_arith);
    reshape_has(c, seq![1, 1, s, s]);
    let m = c.reshape(seq![1, 1, s, s]);
    let hidden = |i: int, o: int| o > i;
    assert forall|i: int, o: int| 0 <= i < s && 0 <= o < s implies #[trigger] low4(m, 0, 0, i, o) == hidden(i, o) by {
        causal_place(f, s, i, o);
    }
    assert forall|i: int, o: int| 0 <= i < s && 0 <= o < s && !hidden(i, o) implies #[trigger] at4(
        f,
        m,
        0,
        0,
        i,
        o,
    ) == 0real by {
        causal_place(f, s, i, o);
    }
}

/// The mask over what comes later, number by number.
proof fn causal_place(f: Functions, s: int, i: int, o: int)
    requires
        has(Tensor::causal_mask(s).reshape(seq![1, 1, s, s]), seq![1, 1, s, s]),
        0 <= i < s,
        0 <= o < s,
    ensures
        at4(f, Tensor::causal_mask(s).reshape(seq![1, 1, s, s]), 0, 0, i, o) == 0real,
        low4(Tensor::causal_mask(s).reshape(seq![1, 1, s, s]), 0, 0, i, o) == (o > i),
{
    broadcast use extents;

    let c = Tensor::causal_mask(s);
    place2(i, o, s, s);
    place4(0, 0, i, o, 1, 1, s, s);
    assert((0 * 1 + 0) * s == 0) by (nonlinear_arith);
    read_reshape(f, c, seq![1, 1, s, s], seq![i, o], seq![0, 0, i, o]);
    reveal(Tensor::causal_mask);
    reveal(lows);
    reveal(elements);
    let spot = seq![i, o];
    assert(lows(c)(spot) == (spot[1] > spot[0]));
    assert(at(f, c, spot) == 0real);
}

/// Attention under a mask, merged: every position gets the values of the positions
/// that are not hidden from it, averaged under its own query.
#[verifier::spinoff_prover]
pub proof fn masked_holds(
    f: Functions,
    q: Tensor,
    k: Tensor,
    v: Tensor,
    mask: Tensor,
    qs: Heads,
    ks: Heads,
    vs: Heads,
    scale: Scalar,
    hidden: spec_fn(int, int) -> bool,
    heads: int,
    rep: int,
    s: int,
    d: int,
)
    requires
        has(q, seq![1, heads, s, d]),
        has(k, seq![1, heads, s, d]),
        has(v, seq![1, heads, s, d]),
        has(mask, seq![1, 1, s, s]),
        hides(f, mask, hidden, s, s),
        heads_hold(f, q, qs, heads, s, d),
        forall|g: int, o: int, m: int|
            0 <= g < heads && 0 <= o < s && 0 <= m < d ==> #[trigger] at4(f, k, 0, g, o, m) == ks(g / rep, o)(m),
        forall|g: int, o: int, m: int|
            0 <= g < heads && 0 <= o < s && 0 <= m < d ==> #[trigger] at4(f, v, 0, g, o, m) == vs(g / rep, o)(m),
        d >= 1,
        heads >= 1,
        heads * d <= usize::MAX,
    ensures
        has(masked_attention(q, k, v, scale, mask), seq![1, heads, s, d]),
        forall|i: int, c: int|
            0 <= i < s && 0 <= c < heads * d ==> at4(
                f,
                masked_attention(q, k, v, scale, mask),
                0,
                c / d,
                i,
                c % d,
            ) == #[trigger] mixed_rows(f, qs, ks, vs, d, rep, s, number(f, scale), hidden)(i)(c),
        has(masked_attention(q, k, v, scale, mask).merge_heads(), seq![1, s, heads * d]),
        holds(
            f,
            masked_attention(q, k, v, scale, mask).merge_heads(),
            mixed_rows(f, qs, ks, vs, d, rep, s, number(f, scale), hidden),
            s,
            heads * d,
        ),
{
    broadcast use {extents, readings};

    let products = q.matmul(k.transpose());
    let scores = products.mul_scalar(scale);
    assert(has(scores, seq![1, heads, s, s]));
    assert(lies_under(mask.dims, seq![1, heads, s, s]));
    broadcast_add_under(scores, mask);
    let m = scores.broadcast_add(mask);
    let ctx = m.softmax_last_dim().matmul(v);
    assert(has(ctx, seq![1, heads, s, d]));
    let rows = mixed_rows(f, qs, ks, vs, d, rep, s, number(f, scale), hidden);
    assert forall|i: int, c: int| 0 <= i < s && 0 <= c < heads * d implies #[trigger] at3(
        f,
        ctx.merge_heads(),
        0,
        i,
        c,
    ) == rows(i)(c) by {
        let none = |g: int, o: int| 0real;
        let hid = |o: int| hidden(i, o);
        assert forall|g: int, o: int| 0 <= g < heads && 0 <= o < s implies #[trigger] low4(m, 0, g, i, o) == hid(
            o,
        ) by {
            assert forall|z: Seq<int>| !(#[trigger] lows(scores)(z)) by {}
            assert(pick(s, i) == i && pick(s, o) == o);
            assert(low4(m, 0, g, i, o) == low4(mask, 0, 0, pick(s, i), pick(s, o)));
        }
        assert forall|g: int, o: int| 0 <= g < heads && 0 <= o < s && !hid(o) implies #[trigger] at4(
            f,
            m,
            0,
            g,
            i,
            o,
        ) == at4(f, scores, 0, g, i, o) + none(g, o) by {
            assert(pick(s, i) == i && pick(s, o) == o);
            assert(at4(f, mask, 0, 0, i, o) == 0real);
        }
        mixed_with_reads(
            f,
            q,
            k,
            v,
            m,
            qs,
            ks,
            vs,
            scale,
            none,
            hid,
            heads,
            rep,
            s,
            s,
            d,
            i,
            c,
        );
        without_bias(f, qs, ks, vs, d, rep, s, number(f, scale), none, hid, i, c);
        assert(at3(f, ctx.merge_heads(), 0, i, c) == at4(f, ctx, 0, c / d, i, c % d));
    }
    assert forall|i: int, c: int| 0 <= i < s && 0 <= c < heads * d implies at4(f, ctx, 0, c / d, i, c % d)
        == #[trigger] rows(i)(c) by {
        assert(at3(f, ctx.merge_heads(), 0, i, c) == at4(f, ctx, 0, c / d, i, c % d));
    }
}

/// A bias of zero is none.
proof fn without_bias(
    f: Functions,
    q: Heads,
    k: Heads,
    v: Heads,
    d: int,
    rep: int,
    t: int,
    scale: real,
    bias: spec_fn(int, int) -> real,
    hidden: spec_fn(int) -> bool,
    i: int,
    c: int,
)
    requires
        forall|g: int, o: int| #[trigger] bias(g, o) == 0real,
    ensures
        mixed_with(f, q, k, v, d, rep, t, scale, bias, hidden, i, c) == mixed(
            f,
            q,
            k,
            v,
            d,
            rep,
            t,
            scale,
            hidden,
            i,
            c,
        ),
{
    let a = |o: int| dot(d, q(c / d, i), k(c / d / rep, o)) * scale + bias(c / d, o);
    let b = |o: int| dot(d, q(c / d, i), k(c / d / rep, o)) * scale;
    let x = |o: int| v(c / d / rep, o)(c % d);
    averages_alike(f, t, a, b, hidden, hidden, x, x);
}

/// Attention without a mask over `t` positions, merged.
#[verifier::spinoff_prover]
pub proof fn full_holds(
    f: Functions,
    q: Tensor,
    k: Tensor,
    v: Tensor,
    qs: Heads,
    ks: Heads,
    vs: Heads,
    scale: Scalar,
    heads: int,
    s: int,
    t: int,
    d: int,
)
    requires
        has(q, seq![1, heads, s, d]),
        has(k, seq![1, heads, t, d]),
        has(v, seq![1, heads, t, d]),
        heads_hold(f, q, qs, heads, s, d),
        heads_hold(f, k, ks, heads, t, d),
        heads_hold(f, v, vs, heads, t, d),
        d >= 1,
        heads >= 1,
        heads * d <= usize::MAX,
    ensures
        has(full_attention(q, k, v, scale), seq![1, heads, s, d]),
        forall|i: int, c: int|
            0 <= i < s && 0 <= c < heads * d ==> at4(f, full_attention(q, k, v, scale), 0, c / d, i, c % d)
                == #[trigger] mixed_rows(f, qs, ks, vs, d, 1, t, number(f, scale), all_seen())(i)(c),
        has(full_attention(q, k, v, scale).merge_heads(), seq![1, s, heads * d]),
        holds(
            f,
            full_attention(q, k, v, scale).merge_heads(),
            mixed_rows(f, qs, ks, vs, d, 1, t, number(f, scale), all_seen()),
            s,
            heads * d,
        ),
{
    broadcast use {extents, readings};

    let products = q.matmul(k.transpose());
    let scores = products.mul_scalar(scale);
    assert(has(scores, seq![1, heads, s, t]));
    let ctx = scores.softmax_last_dim().matmul(v);
    assert(has(ctx, seq![1, heads, s, d]));
    let hidden = all_seen();
    let rows = mixed_rows(f, qs, ks, vs, d, 1, t, number(f, scale), hidden);
    assert forall|i: int, c: int| 0 <= i < s && 0 <= c < heads * d implies #[trigger] at3(
        f,
        ctx.merge_heads(),
        0,
        i,
        c,
    ) == rows(i)(c) by {
        let none = |g: int, o: int| 0real;
        let hid = |o: int| hidden(i, o);
        assert forall|g: int, o: int| 0 <= g < heads && 0 <= o < t implies #[trigger] low4(scores, 0, g, i, o)
            == hid(o) by {
            assert forall|z: Seq<int>| !(#[trigger] lows(scores)(z)) by {}
        }
        assert forall|g: int, o: int, z: int| 0 <= g < heads && 0 <= o < t && 0 <= z < d implies #[trigger] at4(
            f,
            k,
            0,
            g,
            o,
            z,
        ) == ks(g / 1, o)(z) by {}
        assert forall|g: int, o: int, z: int| 0 <= g < heads && 0 <= o < t && 0 <= z < d implies #[trigger] at4(
            f,
            v,
            0,
            g,
            o,
            z,
        ) == vs(g / 1, o)(z) by {}
        mixed_with_reads(
            f,
            q,
            k,
            v,
            scores,
            qs,
            ks,
            vs,
            scale,
            none,
            hid,
            heads,
            1,
            s,
            t,
            d,
            i,
            c,
        );
        without_bias(f, qs, ks, vs, d, 1, t, number(f, scale), none, hid, i, c);
        assert(at3(f, ctx.merge_heads(), 0, i, c) == at4(f, ctx, 0, c / d, i, c % d));
    }
    assert forall|i: int, c: int| 0 <= i < s && 0 <= c < heads * d implies at4(f, ctx, 0, c / d, i, c % d)
        == #[trigger] rows(i)(c) by {
        assert(at3(f, ctx.merge_heads(), 0, i, c) == at4(f, ctx, 0, c / d, i, c % d));
    }
}

/// Each position gets the values of the positions that it sees, averaged under the
/// softmax of their scores, head by head.
pub open spec fn averaged_rows(
    f: Functions,
    score: spec_fn(int, int, int) -> real,
    hidden: spec_fn(int, int) -> bool,
    v: Heads,
    d: int,
    rep: int,
    t: int,
) -> Rows {
    |i: int| |c: int|
        average(
            f,
            t,
            |o: int| score(c / d, i, o),
            |o: int| hidden(i, o),
            |o: int| v(c / d / rep, o)(c % d),
        )
}

/// Values mixed by the softmax of scores that are known.
#[verifier::spinoff_prover]
pub proof fn averaged_holds(
    f: Functions,
    m: Tensor,
    v: Tensor,
    score: spec_fn(int, int, int) -> real,
    hidden: spec_fn(int, int) -> bool,
    vs: Heads,
    heads: int,
    rep: int,
    s: int,
    t: int,
    d: int,
)
    requires
        has(m, seq![1, heads, s, t]),
        has(v, seq![1, heads, t, d]),
        forall|g: int, i: int, o: int|
            0 <= g < heads && 0 <= i < s && 0 <= o < t ==> #[trigger] low4(m, 0, g, i, o) == hidden(i, o),
        forall|g: int, i: int, o: int|
            0 <= g < heads && 0 <= i < s && 0 <= o < t && !hidden(i, o) ==> #[trigger] at4(f, m, 0, g, i, o)
                == score(g, i, o),
        forall|g: int, o: int, k: int|
            0 <= g < heads && 0 <= o < t && 0 <= k < d ==> #[trigger] at4(f, v, 0, g, o, k) == vs(g / rep, o)(k),
        d >= 1,
        heads >= 1,
        heads * d <= usize::MAX,
    ensures
        has(m.softmax_last_dim().matmul(v), seq![1, heads, s, d]),
        forall|i: int, c: int|
            0 <= i < s && 0 <= c < heads * d ==> at4(f, m.softmax_last_dim().matmul(v), 0, c / d, i, c % d)
                == #[trigger] averaged_rows(f, score, hidden, vs, d, rep, t)(i)(c),
        has(m.softmax_last_dim().matmul(v).merge_heads(), seq![1, s, heads * d]),
        holds(
            f,
            m.softmax_last_dim().matmul(v).merge_heads(),
            averaged_rows(f, score, hidden, vs, d, rep, t),
            s,
            heads * d,
        ),
{
    broadcast use {extents, readings};

    let ctx = m.softmax_last_dim().matmul(v);
    assert(has(ctx, seq![1, heads, s, d]));
    let rows = averaged_rows(f, score, hidden, vs, d, rep, t);
    assert forall|i: int, c: int| 0 <= i < s && 0 <= c < heads * d implies at4(f, ctx, 0, c / d, i, c % d)
        == #[trigger] rows(i)(c) by {
        head_of(c, heads, d);
        let (g, k) = (c / d, c % d);
        shares_mix(f, m, v, 1, heads, s, t, d, 0, g, i, k);
        let a = row4(f, m, 0, g, i);
        let b = |o: int| score(g, i, o);
        let h = lows4(m, 0, g, i);
        let hid = |o: int| hidden(i, o);
        assert forall|o: int| 0 <= o < t implies #[trigger] h(o) == hid(o) by {
            assert(low4(m, 0, g, i, o) == hidden(i, o));
        }
        assert forall|o: int| 0 <= o < t && !h(o) implies #[trigger] a(o) == b(o) by {
            assert(h(o) == hid(o));
            assert(at4(f, m, 0, g, i, o) == score(g, i, o));
        }
        let x = |o: int| at4(f, v, 0, g, o, k);
        let y = |o: int| vs(g / rep, o)(k);
        assert forall|o: int| 0 <= o < t implies #[trigger] x(o) == y(o) by {
            assert(at4(f, v, 0, g, o, k) == vs(g / rep, o)(k));
        }
        averages_alike(f, t, a, b, h, hid, x, y);
    }
    assert forall|i: int, c: int| 0 <= i < s && 0 <= c < heads * d implies #[trigger] at3(
        f,
        ctx.merge_heads(),
        0,
        i,
        c,
    ) == rows(i)(c) by {
        assert(at3(f, ctx.merge_heads(), 0, i, c) == at4(f, ctx, 0, c / d, i, c % d));
    }
}

/// Products of queries and keys whose rows are known, none of them hidden.
pub proof fn products_read(
    f: Functions,
    q: Tensor,
    k: Tensor,
    qs: Heads,
    ks: Heads,
    heads: int,
    rep: int,
    s: int,
    t: int,
    d: int,
    g: int,
    i: int,
    o: int,
)
    requires
        has(q, seq![1, heads, s, d]),
        has(k, seq![1, heads, t, d]),
        heads_hold(f, q, qs, heads, s, d),
        forall|g: int, o: int, m: int|
            0 <= g < heads && 0 <= o < t && 0 <= m < d ==> #[trigger] at4(f, k, 0, g, o, m) == ks(g / rep, o)(m),
        0 <= g < heads,
        0 <= i < s,
        0 <= o < t,
    ensures
        has(q.matmul(k.transpose()), seq![1, heads, s, t]),
        at4(f, q.matmul(k.transpose()), 0, g, i, o) == dot(d, qs(g, i), ks(g / rep, o)),
        forall|z: Seq<int>| !(#[trigger] lows(q.matmul(k.transpose()))(z)),
{
    broadcast use {extents, readings};

    let m = q.matmul(k.transpose());
    let a = |z: int| at4(f, q, 0, g, i, z) * at4(f, k.transpose(), 0, g, z, o);
    let c = |z: int| qs(g, i)(z) * ks(g / rep, o)(z);
    assert forall|z: int| 0 <= z < d implies #[trigger] a(z) == c(z) by {
        assert(at4(f, k.transpose(), 0, g, z, o) == at4(f, k, 0, g, o, z));
        assert(at4(f, q, 0, g, i, z) == qs(g, i)(z));
        assert(at4(f, k, 0, g, o, z) == ks(g / rep, o)(z));
    }
    sums_alike(d, a, c);
    assert(at4(f, m, 0, g, i, o) == sum(d, a));
    assert forall|z: Seq<int>| !(#[trigger] lows(m)(z)) by {
        reveal(Tensor::matmul);
        reveal(lows);
    }
}

/// With a head that shares the numbers of an embedding, the logit of a token is the
/// product of the state with the embedding of that token.
pub proof fn tied_head_reads(f: Functions, x: Row, table: Seq<Scalar>, vocab: int, width: int, j: int)
    requires
        table.len() == vocab * width,
        width >= 1,
        0 <= j < vocab,
    ensures
        mapped(f, x, tied_head(table, vocab, width), width, vocab, j) == dot(
            width,
            x,
            |k: int| number(f, table[j * width + k]),
        ),
{
    let head = tied_head(table, vocab, width);
    let a = |k: int| x(k) * number(f, head[k * vocab + j]);
    let row = |k: int| number(f, table[j * width + k]);
    let b = |k: int| x(k) * row(k);
    assert forall|k: int| 0 <= k < width implies #[trigger] a(k) == b(k) by {
        let p = k * vocab + j;
        vstd::arithmetic::div_mod::lemma_fundamental_div_mod_converse(p, vocab, k, j);
        assert(0 <= p < vocab * width) by (nonlinear_arith)
            requires
                0 <= k < width,
                0 <= j < vocab,
                p == k * vocab + j,
        ;
        assert(head[p] == table[j * width + k]);
    }
    sums_alike(width, a, b);
}

/// Attention under a mask `(1, heads, s, s)` that hides some positions and adds a
/// bias to the scores of the others, merged.
#[verifier::spinoff_prover]
pub proof fn biased_mask_holds(
    f: Functions,
    q: Tensor,
    k: Tensor,
    v: Tensor,
    mask: Tensor,
    qs: Heads,
    ks: Heads,
    vs: Heads,
    scale: Scalar,
    bias: spec_fn(int, int, int) -> real,
    hidden: spec_fn(int, int) -> bool,
    heads: int,
    rep: int,
    s: int,
    d: int,
)
    requires
        has(q, seq![1, heads, s, d]),
        has(k, seq![1, heads, s, d]),
        has(v, seq![1, heads, s, d]),
        has(mask, seq![1, heads, s, s]),
        forall|g: int, i: int, o: int|
            0 <= g < heads && 0 <= i < s && 0 <= o < s ==> #[trigger] low4(mask, 0, g, i, o) == hidden(i, o),
        forall|g: int, i: int, o: int|
            0 <= g < heads && 0 <= i < s && 0 <= o < s && !hidden(i, o) ==> #[trigger] at4(f, mask, 0, g, i, o)
                == bias(g, i, o),
        heads_hold(f, q, qs, heads, s, d),
        forall|g: int, o: int, m: int|
            0 <= g < heads && 0 <= o < s && 0 <= m < d ==> #[trigger] at4(f, k, 0, g, o, m) == ks(g / rep, o)(m),
        forall|g: int, o: int, m: int|
            0 <= g < heads && 0 <= o < s && 0 <= m < d ==> #[trigger] at4(f, v, 0, g, o, m) == vs(g / rep, o)(m),
        d >= 1,
        heads >= 1,
        heads * d <= usize::MAX,
    ensures
        has(masked_attention(q, k, v, scale, mask).merge_heads(), seq![1, s, heads * d]),
        holds(
            f,
            masked_attention(q, k, v, scale, mask).merge_heads(),
            mixed_rows_with(f, qs, ks, vs, d, rep, s, number(f, scale), bias, hidden),
            s,
            heads * d,
        ),
{
    broadcast use {extents, readings};

    let products = q.matmul(k.transpose());
    let scores = products.mul_scalar(scale);
    assert(has(scores, seq![1, heads, s, s]));
    assert(lies_under(mask.dims, seq![1, heads, s, s]));
    broadcast_add_under(scores, mask);
    let m = scores.broadcast_add(mask);
    let ctx = m.softmax_last_dim().matmul(v);
    assert(has(ctx, seq![1, heads, s, d]));
    let rows = mixed_rows_with(f, qs, ks, vs, d, rep, s, number(f, scale), bias, hidden);
    assert forall|i: int, c: int| 0 <= i < s && 0 <= c < heads * d implies #[trigger] at3(
        f,
        ctx.merge_heads(),
        0,
        i,
        c,
    ) == rows(i)(c) by {
        let extra = |g: int, o: int| bias(g, i, o);
        let hid = |o: int| hidden(i, o);
        assert forall|g: int, o: int| 0 <= g < heads && 0 <= o < s implies #[trigger] low4(m, 0, g, i, o) == hid(
            o,
        ) by {
            assert forall|z: Seq<int>| !(#[trigger] lows(scores)(z)) by {}
            assert(pick(s, i) == i && pick(s, o) == o && pick(heads, g) == g);
            assert(low4(m, 0, g, i, o) == low4(mask, 0, pick(heads, g), pick(s, i), pick(s, o)));
        }
        assert forall|g: int, o: int| 0 <= g < heads && 0 <= o < s && !hid(o) implies #[trigger] at4(
            f,
            m,
            0,
            g,
            i,
            o,
        ) == at4(f, scores, 0, g, i, o) + extra(g, o) by {
            assert(pick(s, i) == i && pick(s, o) == o && pick(heads, g) == g);
            assert(at4(f, mask, 0, g, i, o) == bias(g, i, o));
        }
        mixed_with_reads(f, q, k, v, m, qs, ks, vs, scale, extra, hid, heads, rep, s, s, d, i, c);
        assert(at3(f, ctx.merge_heads(), 0, i, c) == at4(f, ctx, 0, c / d, i, c % d));
    }
}

/// Heads turned by the angles of their positions, from `start` on.
pub open spec fn roped(f: Functions, theta: Scalar, start: int, d: int, x: Heads) -> Heads {
    |g: int, i: int| |k: int|
        turned(
            x(g, i),
            |m: int| (f.cos)(angle(f, theta, start + i, d, m)),
            |m: int| (f.sin)(angle(f, theta, start + i, d, m)),
            d / 2,
            k,
        )
}

pub proof fn rope_holds(f: Functions, t: Tensor, x: Heads, theta: Scalar, start: int, heads: int, s: int, d: int)
    requires
        has(t, seq![1, heads, s, d]),
        heads_hold(f, t, x, heads, s, d),
        d % 2 == 0,
        d >= 1,
    ensures
        has(
            t.rope_with_tables(Tensor::rope_cos(theta, start, s, d), Tensor::rope_sin(theta, start, s, d)),
            seq![1, heads, s, d],
        ),
        heads_hold(
            f,
            t.rope_with_tables(Tensor::rope_cos(theta, start, s, d), Tensor::rope_sin(theta, start, s, d)),
            roped(f, theta, start, d, x),
            heads,
            s,
            d,
        ),
{
    broadcast use {extents, readings};

    let cos = Tensor::rope_cos(theta, start, s, d);
    let sin = Tensor::rope_sin(theta, start, s, d);
    let y = t.rope_with_tables(cos, sin);
    assert(has(y, seq![1, heads, s, d]));
    let z = roped(f, theta, start, d, x);
    let half = d / 2;
    assert forall|g: int, i: int, k: int| 0 <= g < heads && 0 <= i < s && 0 <= k < d implies #[trigger] at4(
        f,
        y,
        0,
        g,
        i,
        k,
    ) == z(g, i)(k) by {
        assert(at4(f, t, 0, g, i, k) == x(g, i)(k));
        assert(k + half < d ==> at4(f, t, 0, g, i, k + half) == x(g, i)(k + half));
        assert(k - half >= 0 ==> at4(f, t, 0, g, i, k - half) == x(g, i)(k - half));
        assert(at2(f, cos, i, k) == (f.cos)(angle(f, theta, start + i, d, k)));
        assert(at2(f, sin, i, k) == (f.sin)(angle(f, theta, start + i, d, k)));
        assert(at4(f, y, 0, g, i, k) == turned(row4(f, t, 0, g, i), row2(f, cos, i), row2(f, sin, i), half, k));
    }
}

/// Rows by heads, through a reshape and an exchange of axes.
pub proof fn by_heads_holds(f: Functions, t: Tensor, x: Rows, heads: int, d: int, s: int)
    requires
        has(t, seq![1, s, heads * d]),
        holds(f, t, x, s, heads * d),
        heads >= 1,
        d >= 1,
        s >= 1,
        s * (heads * d) <= usize::MAX,
    ensures
        has(t.reshape(seq![1, s, heads, d]).permute(seq![0, 2, 1, 3]), seq![1, heads, s, d]),
        heads_hold(
            f,
            t.reshape(seq![1, s, heads, d]).permute(seq![0, 2, 1, 3]),
            heads_of(x, d),
            heads,
            s,
            d,
        ),
{
    broadcast use {extents, readings};

    assert(1 * s * (heads * d) == s * (heads * d)) by (nonlinear_arith);
    reshape_splits(t, 1, s, heads, d);
    let r = t.reshape(seq![1, s, heads, d]);
    let y = r.permute(seq![0, 2, 1, 3]);
    assert forall|g: int, i: int, k: int| 0 <= g < heads && 0 <= i < s && 0 <= k < d implies #[trigger] at4(
        f,
        y,
        0,
        g,
        i,
        k,
    ) == heads_of(x, d)(g, i)(k) by {
        assert(0 <= g * d + k < heads * d) by (nonlinear_arith)
            requires
                0 <= g < heads,
                0 <= k < d,
        ;
        place3(0, i, g * d + k, 1, s, heads * d);
        place4(0, i, g, k, 1, s, heads, d);
        assert(((0 * s + i) * heads + g) * d + k == (0 * s + i) * (heads * d) + (g * d + k)) by (nonlinear_arith);
        read_reshape(f, t, seq![1, s, heads, d], seq![0, i, g * d + k], seq![0, i, g, k]);
        assert(at4(f, y, 0, g, i, k) == at4(f, r, 0, i, g, k));
        assert(at3(f, t, 0, i, g * d + k) == x(i)(g * d + k));
    }
}

/// Heads put together again, through an exchange of axes and a reshape.
pub proof fn joined_holds(f: Functions, t: Tensor, x: Rows, heads: int, d: int, s: int)
    requires
        has(t, seq![1, heads, s, d]),
        forall|i: int, c: int| 0 <= i < s && 0 <= c < heads * d ==> at4(f, t, 0, c / d, i, c % d) == #[trigger] x(i)(c),
        heads >= 1,
        d >= 1,
        s >= 1,
        s * (heads * d) <= usize::MAX,
    ensures
        has(t.permute(seq![0, 2, 1, 3]).reshape(seq![1, s, heads * d]), seq![1, s, heads * d]),
        holds(f, t.permute(seq![0, 2, 1, 3]).reshape(seq![1, s, heads * d]), x, s, heads * d),
{
    broadcast use {extents, readings};

    assert(1 * s * (heads * d) == s * (heads * d)) by (nonlinear_arith);
    let p = t.permute(seq![0, 2, 1, 3]);
    reshape_merges(p, 1, s, heads, d);
    let y = p.reshape(seq![1, s, heads * d]);
    assert forall|i: int, c: int| 0 <= i < s && 0 <= c < heads * d implies #[trigger] at3(f, y, 0, i, c) == x(i)(c) by {
        head_of(c, heads, d);
        let (g, k) = (c / d, c % d);
        place3(0, i, c, 1, s, heads * d);
        place4(0, i, g, k, 1, s, heads, d);
        assert(((0 * s + i) * heads + g) * d + k == (0 * s + i) * (heads * d) + c) by (nonlinear_arith)
            requires
                c == g * d + k,
        ;
        read_reshape(f, p, seq![1, s, heads * d], seq![0, i, g, k], seq![0, i, c]);
        assert(at4(f, p, 0, i, g, k) == at4(f, t, 0, g, i, k));
        assert(x(i)(c) == at4(f, t, 0, g, i, k));
    }
}

/// Whether a position does not see another: it comes later, or lies before the
/// window.
pub open spec fn beyond(window: Option<usize>) -> spec_fn(int, int) -> bool {
    |i: int, o: int| o > i || (window matches Some(w) && i - o >= w)
}

/// A mask given by its numbers.
pub proof fn mask_data_hides(f: Functions, data: Seq<Scalar>, hidden: spec_fn(int, int) -> bool, s: int)
    requires
        s >= 1,
        s * s <= usize::MAX,
        data.len() == s * s,
        forall|i: int, o: int|
            0 <= i < s && 0 <= o < s ==> data[i * s + o] == mask_value(#[trigger] hidden(i, o)),
    ensures
        has(Tensor::constant(data, seq![1, 1, s, s]), seq![1, 1, s, s]),
        hides(f, Tensor::constant(data, seq![1, 1, s, s]), hidden, s, s),
{
    broadcast use extents;

    let m = Tensor::constant(data, seq![1, 1, s, s]);
    crate::common::mask_has(data, s, 1, 1);
    crate::readings::numbers_zero_one(f);
    assert forall|i: int, o: int| 0 <= i < s && 0 <= o < s implies #[trigger] low4(m, 0, 0, i, o) == hidden(i, o) by {
        place4(0, 0, i, o, 1, 1, s, s);
        assert((0 * 1 + 0) * s == 0) by (nonlinear_arith);
        crate::readings::read_constant(f, data, seq![1, 1, s, s], seq![0, 0, i, o]);
        assert(data[i * s + o] == mask_value(hidden(i, o)));
    }
    assert forall|i: int, o: int| 0 <= i < s && 0 <= o < s && !hidden(i, o) implies #[trigger] at4(
        f,
        m,
        0,
        0,
        i,
        o,
    ) == 0real by {
        place4(0, 0, i, o, 1, 1, s, s);
        assert((0 * 1 + 0) * s == 0) by (nonlinear_arith);
        crate::readings::read_constant(f, data, seq![1, 1, s, s], seq![0, 0, i, o]);
        assert(data[i * s + o] == mask_value(hidden(i, o)));
    }
}

} // verus!
