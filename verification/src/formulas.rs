//! Formulas over rows of real numbers, and the shared parts of models as
//! instances of them.

use crate::common::{full_attention, mask_has, mask_value, masked_attention, swiglu};
use crate::extents::{broadcast_add_under, extents, has};
use crate::lazy::Tensor;
use crate::meaning::{
    at4, grows, low4, lows, mean, number, row3, row4, share, silu, standard, sum, unit_square,
    weight, at3, Functions, Row,
};
use crate::readings::{
    lows4, mapped, mapped_alike, numbers_zero_one, turned, place4, read_constant, readings, sums_alike,
};
use crate::scalar::{zero, Scalar};
use vstd::prelude::*;

verus! {

/// The sum of the products of two rows.
pub open spec fn dot(n: int, x: Row, y: Row) -> real {
    sum(n, |k: int| x(k) * y(k))
}

/// The average of `n` numbers, weighed by the softmax of the scores of those that
/// are not hidden.
pub open spec fn average(f: Functions, n: int, scores: Row, hidden: spec_fn(int) -> bool, x: Row) -> real {
    sum(n, |p: int| share(f, scores, hidden, n, p) * x(p))
}

/// Equal scores, and equal numbers, of what is seen give equal averages.
pub proof fn averages_alike(
    f: Functions,
    n: int,
    s: Row,
    t: Row,
    h: spec_fn(int) -> bool,
    g: spec_fn(int) -> bool,
    x: Row,
    y: Row,
)
    requires
        forall|p: int| 0 <= p < n ==> #[trigger] h(p) == g(p),
        forall|p: int| 0 <= p < n && !h(p) ==> #[trigger] s(p) == t(p),
        forall|p: int| 0 <= p < n ==> #[trigger] x(p) == y(p),
    ensures
        average(f, n, s, h, x) == average(f, n, t, g, y),
{
    assert forall|p: int| 0 <= p < n implies #[trigger] weight(f, s, h, p) == weight(f, t, g, p) by {
        assert(h(p) == g(p));
        if !h(p) {
            assert(s(p) == t(p));
        }
    }
    sums_alike(n, |k: int| weight(f, s, h, k), |k: int| weight(f, t, g, k));
    let a = |p: int| share(f, s, h, n, p) * x(p);
    let b = |p: int| share(f, t, g, n, p) * y(p);
    assert forall|p: int| 0 <= p < n implies #[trigger] a(p) == b(p) by {
        assert(weight(f, s, h, p) == weight(f, t, g, p));
        assert(x(p) == y(p));
    }
    sums_alike(n, a, b);
}

/// Products of equal rows are equal.
pub proof fn dots_alike(n: int, x: Row, y: Row, u: Row, v: Row)
    requires
        forall|k: int| 0 <= k < n ==> #[trigger] x(k) == u(k),
        forall|k: int| 0 <= k < n ==> #[trigger] y(k) == v(k),
    ensures
        dot(n, x, y) == dot(n, u, v),
{
    let a = |k: int| x(k) * y(k);
    let b = |k: int| u(k) * v(k);
    assert forall|k: int| 0 <= k < n implies #[trigger] a(k) == b(k) by {
        assert(x(k) == u(k) && y(k) == v(k));
    }
    sums_alike(n, a, b);
}

/// Normalising depends on the row alone.
pub proof fn norms_alike(f: Functions, x: Row, y: Row, n: int, eps: real, j: int)
    requires
        forall|k: int| 0 <= k < n ==> #[trigger] x(k) == y(k),
        0 <= j < n,
    ensures
        standard(f, x, n, eps, j) == standard(f, y, n, eps, j),
        unit_square(f, x, n, eps, j) == unit_square(f, y, n, eps, j),
{
    sums_alike(n, x, y);
    let m = mean(n, x);
    let a = |k: int| (x(k) - m) * (x(k) - m);
    let b = |k: int| (y(k) - m) * (y(k) - m);
    assert forall|k: int| 0 <= k < n implies #[trigger] a(k) == b(k) by {
        assert(x(k) == y(k));
    }
    sums_alike(n, a, b);
    let c = |k: int| x(k) * x(k);
    let d = |k: int| y(k) * y(k);
    assert forall|k: int| 0 <= k < n implies #[trigger] c(k) == d(k) by {
        assert(x(k) == y(k));
    }
    sums_alike(n, c, d);
    assert(x(j) == y(j));
}

/// Feature `j` of a row mapped by a matrix, plus a bias.
pub open spec fn affine_row(f: Functions, x: Row, w: Seq<Scalar>, b: Seq<Scalar>, n: int, o: int, j: int) -> real {
    mapped(f, x, w, n, o, j) + number(f, b[j])
}

/// Feature `j` of a row with mean zero and variance one, scaled and shifted.
pub open spec fn layer_normed(
    f: Functions,
    x: Row,
    gain: Seq<Scalar>,
    bias: Seq<Scalar>,
    n: int,
    eps: Scalar,
    j: int,
) -> real {
    standard(f, x, n, number(f, eps), j) * number(f, gain[j]) + number(f, bias[j])
}

/// Feature `j` of a row with mean square one, scaled.
pub open spec fn rms_normed(f: Functions, x: Row, gain: Seq<Scalar>, n: int, eps: Scalar, j: int) -> real {
    unit_square(f, x, n, number(f, eps), j) * number(f, gain[j])
}

/// Feature `j` of `down(silu(gate x) * up x)`.
pub open spec fn gated_row(
    f: Functions,
    x: Row,
    gate: Seq<Scalar>,
    up: Seq<Scalar>,
    down: Seq<Scalar>,
    n: int,
    inner: int,
    j: int,
) -> real {
    mapped(
        f,
        |m: int| silu(f, mapped(f, x, gate, n, inner, m)) * mapped(f, x, up, n, inner, m),
        down,
        inner,
        n,
        j,
    )
}

/// Equal rows give equal gated rows.
pub proof fn gated_alike(
    f: Functions,
    x: Row,
    y: Row,
    gate: Seq<Scalar>,
    up: Seq<Scalar>,
    down: Seq<Scalar>,
    n: int,
    inner: int,
    j: int,
)
    requires
        forall|k: int| 0 <= k < n ==> #[trigger] x(k) == y(k),
    ensures
        gated_row(f, x, gate, up, down, n, inner, j) == gated_row(f, y, gate, up, down, n, inner, j),
{
    let a = |m: int| silu(f, mapped(f, x, gate, n, inner, m)) * mapped(f, x, up, n, inner, m);
    let b = |m: int| silu(f, mapped(f, y, gate, n, inner, m)) * mapped(f, y, up, n, inner, m);
    assert forall|m: int| 0 <= m < inner implies #[trigger] a(m) == b(m) by {
        mapped_alike(f, x, y, gate, n, inner, m);
        mapped_alike(f, x, y, up, n, inner, m);
    }
    mapped_alike(f, a, b, down, inner, n, j);
}

/// A matrix and a bias, read.
pub proof fn affine_reads(
    f: Functions,
    t: Tensor,
    w: Seq<Scalar>,
    b: Seq<Scalar>,
    n: int,
    o: int,
    p: int,
    s: int,
    j: int,
)
    requires
        !t.bad(),
        t.dims.len() == 3,
        t.dims[2] == n,
        w.len() == n * o,
        n >= 1,
        o >= 1,
        n * o <= usize::MAX,
        b.len() == o <= usize::MAX,
        0 <= p < t.dims[0],
        0 <= s < t.dims[1],
        0 <= j < o,
    ensures
        at3(f, t.affine(w, b, n, o), p, s, j) == affine_row(f, row3(f, t, p, s), w, b, n, o, j),
{
    broadcast use {extents, readings};

}

/// A norm with gain and bias, read.
pub proof fn layer_norm_reads(
    f: Functions,
    t: Tensor,
    gain: Seq<Scalar>,
    bias: Seq<Scalar>,
    n: int,
    eps: Scalar,
    p: int,
    s: int,
    j: int,
)
    requires
        !t.bad(),
        t.dims.len() == 3,
        t.dims[2] == n,
        gain.len() == n,
        bias.len() == n,
        1 <= n <= usize::MAX,
        0 <= p < t.dims[0],
        0 <= s < t.dims[1],
        0 <= j < n,
    ensures
        at3(f, t.layer_norm(gain, bias, n, eps), p, s, j) == layer_normed(
            f,
            row3(f, t, p, s),
            gain,
            bias,
            n,
            eps,
            j,
        ),
{
    broadcast use {extents, readings};

}

/// A norm with gain, read.
pub proof fn rms_norm_reads(
    f: Functions,
    t: Tensor,
    gain: Seq<Scalar>,
    n: int,
    eps: Scalar,
    p: int,
    s: int,
    j: int,
)
    requires
        !t.bad(),
        t.dims.len() == 3,
        t.dims[2] == n,
        gain.len() == n,
        1 <= n <= usize::MAX,
        0 <= p < t.dims[0],
        0 <= s < t.dims[1],
        0 <= j < n,
    ensures
        at3(f, t.rms_norm(gain, n, eps), p, s, j) == rms_normed(f, row3(f, t, p, s), gain, n, eps, j),
{
    broadcast use {extents, readings};

}

/// The gated feed-forward part, feature by feature.
pub proof fn swiglu_reads(
    f: Functions,
    x: Tensor,
    gate: Seq<Scalar>,
    up: Seq<Scalar>,
    down: Seq<Scalar>,
    n: int,
    inner: int,
    b: int,
    s: int,
    p: int,
    i: int,
    j: int,
)
    requires
        has(x, seq![b, s, n]),
        n >= 1,
        inner >= 1,
        n * inner <= usize::MAX,
        gate.len() == n * inner,
        up.len() == n * inner,
        down.len() == inner * n,
    ensures
        at3(f, swiglu(x, gate, up, down, n, inner), p, i, j) == gated_row(
            f,
            row3(f, x, p, i),
            gate,
            up,
            down,
            n,
            inner,
            j,
        ),
{
    broadcast use {extents, readings};

    assert(inner * n == n * inner) by (nonlinear_arith);
    let g = x.linear(gate, n, inner);
    let u = x.linear(up, n, inner);
    let y = g.silu().mul(u);
    let r = row3(f, x, p, i);
    let a = |m: int| silu(f, mapped(f, r, gate, n, inner, m)) * mapped(f, r, up, n, inner, m);
    assert forall|m: int| 0 <= m < inner implies #[trigger] row3(f, y, p, i)(m) == a(m) by {
        assert(at3(f, y, p, i, m) == at3(f, g.silu(), p, i, m) * at3(f, u, p, i, m));
        assert(at3(f, g.silu(), p, i, m) == silu(f, at3(f, g, p, i, m)));
        assert(at3(f, g, p, i, m) == mapped(f, r, gate, n, inner, m));
        assert(at3(f, u, p, i, m) == mapped(f, r, up, n, inner, m));
    }
    mapped_alike(f, row3(f, y, p, i), a, down, inner, n, j);
}

/// Scaled products of queries and keys, number by number.
pub proof fn scores_read(
    f: Functions,
    q: Tensor,
    k: Tensor,
    scale: Scalar,
    b: int,
    h: int,
    s: int,
    t: int,
    w: int,
    p: int,
    g: int,
    i: int,
    o: int,
)
    requires
        has(q, seq![b, h, s, w]),
        has(k, seq![b, h, t, w]),
    ensures
        at4(f, q.matmul(k.transpose()).mul_scalar(scale), p, g, i, o) == dot(
            w,
            row4(f, q, p, g, i),
            row4(f, k, p, g, o),
        ) * number(f, scale),
{
    broadcast use {extents, readings};

    let products = q.matmul(k.transpose());
    let scores = products.mul_scalar(scale);
    let a = |m: int| at4(f, q, p, g, i, m) * at4(f, k.transpose(), p, g, m, o);
    let c = |m: int| row4(f, q, p, g, i)(m) * row4(f, k, p, g, o)(m);
    assert forall|m: int| 0 <= m < w implies #[trigger] a(m) == c(m) by {
        assert(at4(f, k.transpose(), p, g, m, o) == at4(f, k, p, g, o, m));
    }
    sums_alike(w, a, c);
    assert(at4(f, products, p, g, i, o) == sum(w, a));
    assert(at4(f, scores, p, g, i, o) == at4(f, products, p, g, i, o) * number(f, scale));
}

/// The softmax of scores mixes values.
pub proof fn shares_mix(
    f: Functions,
    m: Tensor,
    v: Tensor,
    b: int,
    h: int,
    s: int,
    t: int,
    w: int,
    p: int,
    g: int,
    i: int,
    j: int,
)
    requires
        has(m, seq![b, h, s, t]),
        has(v, seq![b, h, t, w]),
    ensures
        at4(f, m.softmax_last_dim().matmul(v), p, g, i, j) == average(
            f,
            t,
            row4(f, m, p, g, i),
            lows4(m, p, g, i),
            |o: int| at4(f, v, p, g, o, j),
        ),
{
    broadcast use {extents, readings};

    let shares = m.softmax_last_dim();
    let x = |o: int| at4(f, shares, p, g, i, o) * at4(f, v, p, g, o, j);
    let vals = |o: int| at4(f, v, p, g, o, j);
    let y = |o: int| share(f, row4(f, m, p, g, i), lows4(m, p, g, i), t, o) * vals(o);
    assert forall|o: int| 0 <= o < t implies #[trigger] x(o) == y(o) by {
        assert(at4(f, shares, p, g, i, o) == share(f, row4(f, m, p, g, i), lows4(m, p, g, i), t, o));
    }
    sums_alike(t, x, y);
    assert(at4(f, shares.matmul(v), p, g, i, j) == sum(t, x));
}

/// Attention without a mask: the values of all positions, averaged under the query
/// of the position itself.
pub proof fn full_attention_reads(
    f: Functions,
    q: Tensor,
    k: Tensor,
    v: Tensor,
    scale: Scalar,
    b: int,
    h: int,
    s: int,
    w: int,
    p: int,
    g: int,
    i: int,
    j: int,
)
    requires
        has(q, seq![b, h, s, w]),
        has(k, seq![b, h, s, w]),
        has(v, seq![b, h, s, w]),
    ensures
        at4(f, full_attention(q, k, v, scale), p, g, i, j) == average(
            f,
            s,
            |o: int| dot(w, row4(f, q, p, g, i), row4(f, k, p, g, o)) * number(f, scale),
            |o: int| false,
            |o: int| at4(f, v, p, g, o, j),
        ),
{
    broadcast use {extents, readings};

    let products = q.matmul(k.transpose());
    let scores = products.mul_scalar(scale);
    let shares = scores.softmax_last_dim();
    let want = |o: int| dot(w, row4(f, q, p, g, i), row4(f, k, p, g, o)) * number(f, scale);
    let seen = |o: int| false;
    let vals = |o: int| at4(f, v, p, g, o, j);
    assert forall|o: int| 0 <= o < s implies #[trigger] row4(f, scores, p, g, i)(o) == want(o) by {
        let a = |m: int| at4(f, q, p, g, i, m) * at4(f, k.transpose(), p, g, m, o);
        let c = |m: int| row4(f, q, p, g, i)(m) * row4(f, k, p, g, o)(m);
        assert forall|m: int| 0 <= m < w implies #[trigger] a(m) == c(m) by {
            assert(at4(f, k.transpose(), p, g, m, o) == at4(f, k, p, g, o, m));
        }
        sums_alike(w, a, c);
        assert(at4(f, products, p, g, i, o) == sum(w, a));
        assert(at4(f, scores, p, g, i, o) == at4(f, products, p, g, i, o) * number(f, scale));
    }
    averages_alike(f, s, row4(f, scores, p, g, i), want, lows4(scores, p, g, i), seen, vals, vals);
    let x = |o: int| at4(f, shares, p, g, i, o) * at4(f, v, p, g, o, j);
    let y = |o: int| share(f, row4(f, scores, p, g, i), lows4(scores, p, g, i), s, o) * vals(o);
    assert forall|o: int| 0 <= o < s implies #[trigger] x(o) == y(o) by {
        assert(at4(f, shares, p, g, i, o) == share(
            f,
            row4(f, scores, p, g, i),
            lows4(scores, p, g, i),
            s,
            o,
        ));
    }
    sums_alike(s, x, y);
    assert(at4(f, shares.matmul(v), p, g, i, j) == sum(s, x));
}

/// Attention under a square mask: the values of the positions that are not hidden,
/// averaged under the query of the position itself.
pub proof fn masked_attention_reads(
    f: Functions,
    q: Tensor,
    k: Tensor,
    v: Tensor,
    scale: Scalar,
    data: Seq<Scalar>,
    hidden: spec_fn(int) -> bool,
    h: int,
    s: int,
    w: int,
    g: int,
    i: int,
    j: int,
)
    requires
        has(q, seq![1, h, s, w]),
        has(k, seq![1, h, s, w]),
        has(v, seq![1, h, s, w]),
        s * s <= usize::MAX,
        data.len() == s * s,
        forall|o: int| 0 <= o < s ==> data[i * s + o] == mask_value(#[trigger] hidden(o)),
        0 <= g < h,
        0 <= i < s,
    ensures
        at4(f, masked_attention(q, k, v, scale, Tensor::constant(data, seq![1, 1, s, s])), 0, g, i, j) == average(
            f,
            s,
            |o: int| dot(w, row4(f, q, 0, g, i), row4(f, k, 0, g, o)) * number(f, scale),
            hidden,
            |o: int| at4(f, v, 0, g, o, j),
        ),
{
    broadcast use {extents, readings};

    let mask = Tensor::constant(data, seq![1, 1, s, s]);
    mask_has(data, s, 1, h);
    let products = q.matmul(k.transpose());
    let scores = products.mul_scalar(scale);
    broadcast_add_under(scores, mask);
    let masked = scores.broadcast_add(mask);
    let shares = masked.softmax_last_dim();
    let want = |o: int| dot(w, row4(f, q, 0, g, i), row4(f, k, 0, g, o)) * number(f, scale);
    let vals = |o: int| at4(f, v, 0, g, o, j);
    let (xs, hs) = (row4(f, masked, 0, g, i), lows4(masked, 0, g, i));
    numbers_zero_one(f);
    assert forall|o: int| 0 <= o < s implies #[trigger] hs(o) == hidden(o) by {
        assert(data[i * s + o] == mask_value(hidden(o)));
        place4(0, 0, i, o, 1, 1, s, s);
        assert((0 * 1 + 0) * s == 0) by (nonlinear_arith);
        read_constant(f, data, seq![1, 1, s, s], seq![0, 0, pick0(s, i), pick0(s, o)]);
        place4(0, 0, pick0(s, i), pick0(s, o), 1, 1, s, s);
        assert(pick0(s, i) == i && pick0(s, o) == o);
        assert forall|z: Seq<int>| !(#[trigger] lows(scores)(z)) by {}
        assert(low4(masked, 0, g, i, o) == low4(mask, 0, 0, pick0(s, i), pick0(s, o)));
    }
    assert forall|o: int| 0 <= o < s && !hs(o) implies #[trigger] xs(o) == want(o) by {
        let a = |m: int| at4(f, q, 0, g, i, m) * at4(f, k.transpose(), 0, g, m, o);
        let c = |m: int| row4(f, q, 0, g, i)(m) * row4(f, k, 0, g, o)(m);
        assert forall|m: int| 0 <= m < w implies #[trigger] a(m) == c(m) by {
            assert(at4(f, k.transpose(), 0, g, m, o) == at4(f, k, 0, g, o, m));
        }
        sums_alike(w, a, c);
        assert(at4(f, products, 0, g, i, o) == sum(w, a));
        assert(at4(f, scores, 0, g, i, o) == at4(f, products, 0, g, i, o) * number(f, scale));
        assert(hs(o) == hidden(o));
        assert(data[i * s + o] == zero());
        read_constant(f, data, seq![1, 1, s, s], seq![0, 0, i, o]);
        place4(0, 0, i, o, 1, 1, s, s);
        assert((0 * 1 + 0) * s == 0) by (nonlinear_arith);
        assert(pick0(s, i) == i && pick0(s, o) == o);
        assert(at4(f, masked, 0, g, i, o) == at4(f, scores, 0, g, i, o) + at4(
            f,
            mask,
            0,
            0,
            pick0(s, i),
            pick0(s, o),
        ));
    }
    averages_alike(f, s, xs, want, hs, hidden, vals, vals);
    let x = |o: int| at4(f, shares, 0, g, i, o) * at4(f, v, 0, g, o, j);
    let y = |o: int| share(f, xs, hs, s, o) * vals(o);
    assert forall|o: int| 0 <= o < s implies #[trigger] x(o) == y(o) by {
        assert(at4(f, shares, 0, g, i, o) == share(f, xs, hs, s, o));
    }
    sums_alike(s, x, y);
    assert(at4(f, shares.matmul(v), 0, g, i, j) == sum(s, x));
}

/// An index along an axis of `s` positions.
spec fn pick0(s: int, i: int) -> int {
    if s == 1 {
        0
    } else {
        i
    }
}

/// A row for each position.
pub type Rows = spec_fn(int) -> Row;

/// A row for each head and position.
pub type Heads = spec_fn(int, int) -> Row;

/// The tokens of the first sequence of `(batch, seq, features)`.
pub open spec fn tokens_of(f: Functions, t: Tensor) -> Rows {
    |i: int| row3(f, t, 0, i)
}

/// Head `g` of a row of heads of width `d`.
pub open spec fn headed(x: Row, g: int, d: int) -> Row {
    |k: int| x(g * d + k)
}

/// Rows mapped by a matrix, by heads.
pub open spec fn mapped_heads(f: Functions, x: Rows, w: Seq<Scalar>, n: int, o: int, d: int) -> Heads {
    |g: int, i: int| headed(|j: int| mapped(f, x(i), w, n, o, j), g, d)
}

/// Heads turned by the angles of their positions.
pub open spec fn turned_heads(x: Heads, cos: Rows, sin: Rows, d: int) -> Heads {
    |g: int, i: int| |k: int| turned(x(g, i), cos(i), sin(i), d / 2, k)
}

/// Feature `c` of what position `i` attends to: the values of the positions that
/// are not hidden from it, averaged under its own query. Each head of the keys
/// serves `rep` heads of the queries.
pub open spec fn mixed(
    f: Functions,
    q: Heads,
    k: Heads,
    v: Heads,
    d: int,
    rep: int,
    s: int,
    scale: real,
    hidden: spec_fn(int) -> bool,
    i: int,
    c: int,
) -> real {
    average(
        f,
        s,
        |o: int| dot(d, q(c / d, i), k(c / d / rep, o)) * scale,
        hidden,
        |o: int| v(c / d / rep, o)(c % d),
    )
}

/// Feature `c` of what position `i` attends to among `t` positions, where `bias`
/// is added to the score of a position under a head.
pub open spec fn mixed_with(
    f: Functions,
    q: Heads,
    k: Heads,
    v: Heads,
    d: int,
    rep: int,
    t: int,
    scale: real,
    bias: spec_fn(int, int) -> real,
    hidden: spec_fn(int) -> bool,
    i: int,
    c: int,
) -> real {
    average(
        f,
        t,
        |o: int| dot(d, q(c / d, i), k(c / d / rep, o)) * scale + bias(c / d, o),
        hidden,
        |o: int| v(c / d / rep, o)(c % d),
    )
}

/// Attention of heads whose rows are known, under scores to which a bias was
/// added.
pub proof fn mixed_with_reads(
    f: Functions,
    q: Tensor,
    k: Tensor,
    v: Tensor,
    m: Tensor,
    qs: Heads,
    ks: Heads,
    vs: Heads,
    scale: Scalar,
    bias: spec_fn(int, int) -> real,
    hidden: spec_fn(int) -> bool,
    heads: int,
    rep: int,
    s: int,
    t: int,
    d: int,
    i: int,
    c: int,
)
    requires
        has(q, seq![1, heads, s, d]),
        has(k, seq![1, heads, t, d]),
        has(v, seq![1, heads, t, d]),
        has(m, seq![1, heads, s, t]),
        d >= 1,
        0 <= c < heads * d,
        0 <= i < s,
        forall|g: int, o: int|
            0 <= g < heads && 0 <= o < t && !hidden(o) ==> #[trigger] at4(f, m, 0, g, i, o) == at4(
                f,
                q.matmul(k.transpose()).mul_scalar(scale),
                0,
                g,
                i,
                o,
            ) + bias(g, o),
        forall|g: int, o: int| 0 <= g < heads && 0 <= o < t ==> #[trigger] low4(m, 0, g, i, o) == hidden(o),
        forall|g: int, o: int, z: int|
            0 <= g < heads && 0 <= o < s && 0 <= z < d ==> #[trigger] at4(f, q, 0, g, o, z) == qs(g, o)(z),
        forall|g: int, o: int, z: int|
            0 <= g < heads && 0 <= o < t && 0 <= z < d ==> #[trigger] at4(f, k, 0, g, o, z) == ks(g / rep, o)(z),
        forall|g: int, o: int, z: int|
            0 <= g < heads && 0 <= o < t && 0 <= z < d ==> #[trigger] at4(f, v, 0, g, o, z) == vs(g / rep, o)(z),
    ensures
        at4(f, m.softmax_last_dim().matmul(v), 0, c / d, i, c % d) == mixed_with(
            f,
            qs,
            ks,
            vs,
            d,
            rep,
            t,
            number(f, scale),
            bias,
            hidden,
            i,
            c,
        ),
{
    head_of(c, heads, d);
    let (g, j) = (c / d, c % d);
    shares_mix(f, m, v, 1, heads, s, t, d, 0, g, i, j);
    let a = row4(f, m, 0, g, i);
    let b = |o: int| dot(d, qs(g, i), ks(g / rep, o)) * number(f, scale) + bias(g, o);
    let h = lows4(m, 0, g, i);
    assert forall|o: int| 0 <= o < t implies #[trigger] h(o) == hidden(o) by {
        assert(low4(m, 0, g, i, o) == hidden(o));
    }
    assert forall|o: int| 0 <= o < t && !h(o) implies #[trigger] a(o) == b(o) by {
        assert(h(o) == hidden(o));
        scores_read(f, q, k, scale, 1, heads, s, t, d, 0, g, i, o);
        assert forall|z: int| 0 <= z < d implies #[trigger] row4(f, q, 0, g, i)(z) == qs(g, i)(z) by {
            assert(at4(f, q, 0, g, i, z) == qs(g, i)(z));
        }
        assert forall|z: int| 0 <= z < d implies #[trigger] row4(f, k, 0, g, o)(z) == ks(g / rep, o)(z) by {
            assert(at4(f, k, 0, g, o, z) == ks(g / rep, o)(z));
        }
        dots_alike(d, row4(f, q, 0, g, i), row4(f, k, 0, g, o), qs(g, i), ks(g / rep, o));
        assert(at4(f, m, 0, g, i, o) == at4(f, q.matmul(k.transpose()).mul_scalar(scale), 0, g, i, o) + bias(
            g,
            o,
        ));
    }
    let x = |o: int| at4(f, v, 0, g, o, j);
    let y = |o: int| vs(g / rep, o)(j);
    assert forall|o: int| 0 <= o < t implies #[trigger] x(o) == y(o) by {
        assert(at4(f, v, 0, g, o, j) == vs(g / rep, o)(j));
    }
    averages_alike(f, t, a, b, h, hidden, x, y);
}

/// Heads and features of a row.
pub proof fn head_of(c: int, heads: int, d: int)
    requires
        0 <= c < heads * d,
        d >= 1,
    ensures
        0 <= c / d < heads,
        0 <= c % d < d,
        c == (c / d) * d + c % d,
{
    vstd::arithmetic::div_mod::lemma_fundamental_div_mod(c, d);
    assert(d * (c / d) == (c / d) * d) by (nonlinear_arith);
    assert(0 <= c / d < heads) by (nonlinear_arith)
        requires
            0 <= c < heads * d,
            d >= 1,
            c == d * (c / d) + c % d,
            0 <= c % d < d,
    ;
}

/// Attention of heads whose rows are known, under a square mask.
pub proof fn mixed_reads(
    f: Functions,
    q: Tensor,
    k: Tensor,
    v: Tensor,
    qs: Heads,
    ks: Heads,
    vs: Heads,
    scale: Scalar,
    data: Seq<Scalar>,
    hidden: spec_fn(int) -> bool,
    heads: int,
    rep: int,
    s: int,
    d: int,
    i: int,
    c: int,
)
    requires
        has(q, seq![1, heads, s, d]),
        has(k, seq![1, heads, s, d]),
        has(v, seq![1, heads, s, d]),
        s * s <= usize::MAX,
        data.len() == s * s,
        forall|o: int| 0 <= o < s ==> data[i * s + o] == mask_value(#[trigger] hidden(o)),
        d >= 1,
        0 <= c < heads * d,
        0 <= i < s,
        forall|g: int, o: int, m: int|
            0 <= g < heads && 0 <= o < s && 0 <= m < d ==> #[trigger] at4(f, q, 0, g, o, m) == qs(g, o)(m),
        forall|g: int, o: int, m: int|
            0 <= g < heads && 0 <= o < s && 0 <= m < d ==> #[trigger] at4(f, k, 0, g, o, m) == ks(g / rep, o)(m),
        forall|g: int, o: int, m: int|
            0 <= g < heads && 0 <= o < s && 0 <= m < d ==> #[trigger] at4(f, v, 0, g, o, m) == vs(g / rep, o)(m),
    ensures
        at4(
            f,
            masked_attention(q, k, v, scale, Tensor::constant(data, seq![1, 1, s, s])),
            0,
            c / d,
            i,
            c % d,
        ) == mixed(f, qs, ks, vs, d, rep, s, number(f, scale), hidden, i, c),
{
    head_of(c, heads, d);
    let (g, j) = (c / d, c % d);
    masked_attention_reads(f, q, k, v, scale, data, hidden, heads, s, d, g, i, j);
    let a = |o: int| dot(d, row4(f, q, 0, g, i), row4(f, k, 0, g, o)) * number(f, scale);
    let b = |o: int| dot(d, qs(g, i), ks(g / rep, o)) * number(f, scale);
    assert forall|o: int| 0 <= o < s implies #[trigger] a(o) == b(o) by {
        assert forall|m: int| 0 <= m < d implies #[trigger] row4(f, q, 0, g, i)(m) == qs(g, i)(m) by {
            assert(at4(f, q, 0, g, i, m) == qs(g, i)(m));
        }
        assert forall|m: int| 0 <= m < d implies #[trigger] row4(f, k, 0, g, o)(m) == ks(g / rep, o)(m) by {
            assert(at4(f, k, 0, g, o, m) == ks(g / rep, o)(m));
        }
        dots_alike(d, row4(f, q, 0, g, i), row4(f, k, 0, g, o), qs(g, i), ks(g / rep, o));
    }
    let x = |o: int| at4(f, v, 0, g, o, j);
    let y = |o: int| vs(g / rep, o)(j);
    assert forall|o: int| 0 <= o < s implies #[trigger] x(o) == y(o) by {
        assert(at4(f, v, 0, g, o, j) == vs(g / rep, o)(j));
    }
    averages_alike(f, s, a, b, hidden, hidden, x, y);
}

/// A higher score never weighs less.
pub proof fn shares_follow_scores(f: Functions, x: Row, n: int, a: int, b: int)
    requires
        grows(f),
        0 <= a < n,
        0 <= b < n,
        x(a) <= x(b),
    ensures
        share(f, x, |k: int| false, n, a) <= share(f, x, |k: int| false, n, b),
        share(f, x, |k: int| false, n, a) > 0real,
{
    let h = |k: int| false;
    let total = sum(n, |k: int| weight(f, x, h, k));
    weights_add_up(f, x, h, n);
    let (wa, wb) = (weight(f, x, h, a), weight(f, x, h, b));
    assert(wa > 0real && wa <= wb);
    assert(wa / total <= wb / total && wa / total > 0real) by (nonlinear_arith)
        requires
            0real < wa <= wb,
            total > 0real,
    ;
}

/// Weights of which none is hidden have a positive sum.
pub proof fn weights_add_up(f: Functions, x: Row, h: spec_fn(int) -> bool, n: int)
    requires
        grows(f),
        forall|k: int| 0 <= k < n ==> !(#[trigger] h(k)),
    ensures
        n >= 1 ==> sum(n, |k: int| weight(f, x, h, k)) > 0real,
        sum(n, |k: int| weight(f, x, h, k)) >= 0real,
    decreases n,
{
    if n > 0 {
        weights_add_up(f, x, h, n - 1);
        assert(!h(n - 1));
        assert(weight(f, x, h, n - 1) > 0real);
    }
}

} // verus!
