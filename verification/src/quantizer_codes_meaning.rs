//! What the codes of the quantizers are, number by number.

use crate::codec_extents::{
    channels_mapped_has, mapped_has, quantizer_encode_succeeds, residual_has, rvq_encode_succeeds,
    split_encode_succeeds, stacked_codes_have, vq_decode_succeeds, vq_encode_succeeds,
};
use crate::common::stacked;
use crate::extents::{broadcast_to_has, constant_has, extents, has, products, reshape_has};
use crate::formulas::dot;
use crate::lazy::Tensor;
use crate::lazy_mimi_quantization::{
    channels_mapped, mapped, EuclideanCodebookWeights, ResidualVectorQuantizationWeights,
    ResidualVectorQuantizerWeights, SplitResidualVectorQuantizerWeights, VectorQuantizationWeights,
};
use crate::meaning::{at, at1, at2, at3, elements, first_least, number, sum, under, Functions, Row};
use crate::quantizer_meaning::{book_row, channels_read, layer_row, mapped_reads, mapped_row, vq_decode_reads};
use crate::readings::{place1, place2, place3, read_reshape, readings, row2, sums_alike};
use vstd::prelude::*;

verus! {

/// Half the squared length of row `e` of a codebook, less its product with `x`: the
/// lower, the nearer.
pub open spec fn score(f: Functions, cb: &EuclideanCodebookWeights, x: Row, e: int) -> real {
    number(f, cb.c2@[e]) - dot(cb.codebook_dim as int, x, book_row(f, cb, e))
}

/// The first of the rows of a codebook with the lowest score.
pub open spec fn nearest(f: Functions, cb: &EuclideanCodebookWeights, x: Row) -> int {
    first_least(|e: int| score(f, cb, x, e), cb.codebook_size as int)
}

/// The code that a layer gives to a row: that of the nearest row of its codebook to
/// the projected row.
pub open spec fn layer_code(f: Functions, w: &VectorQuantizationWeights, x: Row) -> int {
    nearest(f, &w.codebook, |j: int| mapped_row(f, x, w.project_in_w, w.project_in_b, w.dim as int, j))
}

/// What is left of a row after the first `n` layers: each takes away what its code
/// stands for.
pub open spec fn left_over(f: Functions, w: &ResidualVectorQuantizationWeights, x: Row, n: int) -> Row
    decreases n,
{
    if n <= 0 {
        x
    } else {
        let y = left_over(f, w, x, n - 1);
        let e = layer_code(f, &w.layers@[n - 1], y);
        |j: int| y(j) - layer_row(f, &w.layers@[n - 1], e, j)
    }
}

/// The code of layer `l` for a row of a signal.
pub open spec fn stage_code(f: Functions, w: &ResidualVectorQuantizerWeights, x: Row, l: int) -> int {
    layer_code(
        f,
        &w.vq.layers@[l],
        left_over(
            f,
            &w.vq,
            |j: int| mapped_row(f, x, w.input_proj_w, None, w.input_dim as int, j),
            l,
        ),
    )
}

/// The lowest number is found.
pub proof fn least_is_found(g: Row, n: int)
    requires
        n >= 1,
    ensures
        0 <= first_least(g, n) < n,
        forall|k: int| 0 <= k < n ==> g(first_least(g, n)) <= #[trigger] g(k),
        forall|k: int| 0 <= k < first_least(g, n) ==> g(first_least(g, n)) < #[trigger] g(k),
    decreases n,
{
    if n > 1 {
        least_is_found(g, n - 1);
    }
}

proof fn least_alike(g: Row, h: Row, n: int)
    requires
        n >= 1,
        forall|k: int| 0 <= k < n ==> #[trigger] g(k) == h(k),
    ensures
        first_least(g, n) == first_least(h, n),
    decreases n,
{
    if n > 1 {
        least_alike(g, h, n - 1);
        least_is_found(g, n - 1);
        assert(g(n - 1) == h(n - 1));
    }
}

/// The scores, number by number.
#[verifier::spinoff_prover]
proof fn scores_read(f: Functions, cb: &EuclideanCodebookWeights, x: Tensor, row: Row, m: int, i: int, e: int)
    requires
        cb.codebook_size >= 1,
        cb.codebook_dim >= 1,
        cb.codebook_size * cb.codebook_dim <= usize::MAX,
        cb.embedding@.len() == cb.codebook_size * cb.codebook_dim,
        cb.c2@.len() == cb.codebook_size,
        has(x, seq![m, cb.codebook_dim as int]),
        has(cb.scores(x), seq![m, cb.codebook_size as int]),
        forall|k: int| 0 <= k < cb.codebook_dim ==> #[trigger] at2(f, x, i, k) == row(k),
        0 <= i < m,
        0 <= e < cb.codebook_size,
    ensures
        at2(f, cb.scores(x), i, e) == score(f, cb, row, e),
{
    broadcast use {extents, readings};

    let n = cb.codebook_size as int;
    let cd = cb.codebook_dim as int;
    products(n, cd, 1, 1, 1, 1);
    constant_has(cb.embedding@, seq![n, cd]);
    let rows = cb.rows();
    let turned = rows.permute(seq![1, 0]);
    let dots = x.matmul(turned);
    assert(has(dots, seq![m, n]));
    let book = book_row(f, cb, e);
    let g = |k: int| at2(f, x, i, k) * at2(f, turned, k, e);
    let h = |k: int| row(k) * book(k);
    assert forall|k: int| 0 <= k < cd implies #[trigger] g(k) == h(k) by {
        assert(at2(f, x, i, k) == row(k));
        assert(at2(f, turned, k, e) == at2(f, rows, e, k));
    }
    sums_alike(cd, g, h);
    assert(at2(f, dots, i, e) == sum(cd, g));
    products(n, 1, 1, 1, 1, 1);
    products(1, n, 1, 1, 1, 1);
    assert(n <= n * cd) by (nonlinear_arith)
        requires
            n >= 1,
            cd >= 1,
    ;
    let c2 = Tensor::constant(cb.c2@, seq![n]);
    reshape_has(c2, seq![1, n]);
    let flat = c2.reshape(seq![1, n]);
    broadcast_to_has(flat, seq![m, n]);
    let wide = flat.broadcast_to(seq![m, n]);
    let spot = seq![i, e];
    assert(under(spot, seq![1, n]) =~= seq![0, e]) by {
        assert(n == 1 ==> e == 0);
    }
    assert(at(f, wide, spot) == at(f, flat, seq![0, e])) by {
        reveal(Tensor::broadcast_to);
        reveal(elements);
    }
    place1(e, n);
    place2(0, e, 1, n);
    read_reshape(f, c2, seq![1, n], seq![e], seq![0, e]);
    assert(at1(f, c2, e) == number(f, cb.c2@[e]));
    assert(at2(f, wide.sub(dots), i, e) == at2(f, wide, i, e) - at2(f, dots, i, e));
}

/// A layer codes each row by the nearest row of its codebook.
#[verifier::spinoff_prover]
pub proof fn layer_code_reads(
    f: Functions,
    w: &VectorQuantizationWeights,
    xs: Tensor,
    row: Row,
    b: int,
    t: int,
    p: int,
    i: int,
)
    requires
        w.sized(b, t),
        has(xs, seq![b, w.dim as int, t]),
        0 <= p < b,
        0 <= i < t,
        forall|c: int| 0 <= c < w.dim ==> #[trigger] at3(f, xs, p, c, i) == row(c),
    ensures
        at2(f, w.encoded(xs), p, i) == layer_code(f, w, row) as real,
{
    broadcast use {extents, readings};

    let n = w.codebook.codebook_size as int;
    let cd = w.codebook.codebook_dim as int;
    let d = w.dim as int;
    let m = b * t;
    vq_encode_succeeds(w, xs, b, t);
    assert(m >= 1 && m <= m * cd) by (nonlinear_arith)
        requires
            m == b * t,
            b >= 1,
            t >= 1,
            cd >= 1,
    ;
    let x = xs.permute(seq![0, 2, 1]);
    assert forall|c: int| 0 <= c < d implies #[trigger] at3(f, x, p, i, c) == row(c) by {
        assert(at3(f, x, p, i, c) == at3(f, xs, p, c, i));
    }
    mapped_has(x, w.project_in_w, w.project_in_b, d, cd, b, t);
    let y = mapped(x, w.project_in_w, w.project_in_b, d, cd);
    products(b, t, cd, 1, 1, 1);
    products(m, cd, 1, 1, 1, 1);
    reshape_has(y, seq![m, cd]);
    let flat = y.reshape(seq![m, cd]);
    let spot = p * t + i;
    assert(0 <= spot < m) by (nonlinear_arith)
        requires
            0 <= p < b,
            0 <= i < t,
            m == b * t,
            spot == p * t + i,
    ;
    let want = |j: int| mapped_row(f, row, w.project_in_w, w.project_in_b, d, j);
    assert forall|k: int| 0 <= k < cd implies #[trigger] at2(f, flat, spot, k) == want(k) by {
        mapped_reads(f, x, row, w.project_in_w, w.project_in_b, d, cd, b, t, p, i, k);
        place2(spot, k, m, cd);
        place3(p, i, k, b, t, cd);
        read_reshape(f, y, seq![m, cd], seq![p, i, k], seq![spot, k]);
    }
    let cb = &w.codebook;
    products(n, cd, 1, 1, 1, 1);
    constant_has(cb.embedding@, seq![n, cd]);
    products(n, 1, 1, 1, 1, 1);
    products(1, n, 1, 1, 1, 1);
    assert(n <= n * cd) by (nonlinear_arith)
        requires
            n >= 1,
            cd >= 1,
    ;
    let c2 = Tensor::constant(cb.c2@, seq![n]);
    reshape_has(c2, seq![1, n]);
    broadcast_to_has(c2.reshape(seq![1, n]), seq![m, n]);
    let dots = flat.matmul(cb.rows().permute(seq![1, 0]));
    assert(has(dots, seq![m, n]));
    let scores = cb.scores(flat);
    assert(has(scores, seq![m, n]));
    let codes = scores.argmin_dim(1);
    assert(codes.dims =~= seq![m]);
    let (got, sc) = (row2(f, scores, spot), |e: int| score(f, cb, want, e));
    assert forall|e: int| 0 <= e < n implies #[trigger] got(e) == sc(e) by {
        scores_read(f, cb, flat, want, m, spot, e);
    }
    least_alike(got, sc, n);
    assert(at1(f, codes, spot) == first_least(got, n) as real);
    products(m, 1, 1, 1, 1, 1);
    products(b, t, 1, 1, 1, 1);
    reshape_has(codes, seq![b, t]);
    place1(spot, m);
    place2(p, i, b, t);
    read_reshape(f, codes, seq![b, t], seq![spot], seq![p, i]);
}

/// What the first layers leave over, number by number.
proof fn left_over_reads(
    f: Functions,
    w: &ResidualVectorQuantizationWeights,
    xs: Tensor,
    row: Row,
    n: int,
    d: int,
    b: int,
    t: int,
    p: int,
    i: int,
)
    requires
        w.sized(d, b, t),
        0 <= n <= w.layers@.len(),
        has(xs, seq![b, d, t]),
        0 <= p < b,
        0 <= i < t,
        forall|c: int| 0 <= c < d ==> #[trigger] at3(f, xs, p, c, i) == row(c),
    ensures
        forall|c: int|
            0 <= c < d ==> #[trigger] at3(f, w.residual(xs, n), p, c, i) == left_over(f, w, row, n)(c),
    decreases n,
{
    broadcast use {extents, readings};

    if n > 0 {
        left_over_reads(f, w, xs, row, n - 1, d, b, t, p, i);
        residual_has(w, xs, n - 1, d, b, t);
        residual_has(w, xs, n, d, b, t);
        let left = w.residual(xs, n - 1);
        let y = left_over(f, w, row, n - 1);
        let layer = &w.layers@[n - 1];
        assert(layer.sized(b, t) && layer.dim == d);
        layer_code_reads(f, layer, left, y, b, t, p, i);
        vq_encode_succeeds(layer, left, b, t);
        let e = layer_code(f, layer, y);
        assert((e as real).floor() == e);
        let codes = layer.encoded(left);
        vq_decode_succeeds(layer, codes, b, t);
        assert forall|c: int| 0 <= c < d implies #[trigger] at3(f, w.residual(xs, n), p, c, i) == left_over(
            f,
            w,
            row,
            n,
        )(c) by {
            vq_decode_reads(f, layer, codes, b, t, p, c, i);
            assert(at3(f, left, p, c, i) == y(c));
            assert(at3(f, left.sub(layer.decoded(codes)), p, c, i) == at3(f, left, p, c, i) - at3(
                f,
                layer.decoded(codes),
                p,
                c,
                i,
            ));
        }
    }
}

/// Codes put side by side, number by number.
proof fn stacked_codes_read(f: Functions, ts: Seq<Tensor>, b: int, t: int, a: int, p: int, i: int)
    requires
        1 <= ts.len() <= usize::MAX,
        forall|k: int| 0 <= k < ts.len() ==> has(#[trigger] ts[k], seq![b, t]),
        0 <= a < ts.len(),
    ensures
        at3(f, stacked(ts, 0), a, p, i) == at2(f, ts[a], p, i),
    decreases ts.len(),
{
    broadcast use {extents, readings};

    let k = ts.len() as int;
    let last = ts[k - 1].unsqueeze(0);
    assert(last.dims =~= seq![1, b, t]);
    assert(at3(f, last, 0, p, i) == at2(f, ts[k - 1], p, i)) by {
        reveal(Tensor::unsqueeze);
        reveal(elements);
        assert(seq![0, p, i].remove(0) =~= seq![p, i]);
    }
    if k > 1 {
        let front = ts.drop_last();
        assert forall|z: int| 0 <= z < front.len() implies has(#[trigger] front[z], seq![b, t]) by {
            assert(front[z] == ts[z]);
        }
        stacked_codes_have(front, b, t);
        let x = stacked(front, 0);
        assert(x.dims.update(0, 0) =~= last.dims.update(0, 0));
        assert(x.concat(last, 0).dims =~= seq![k, b, t]);
        if a < k - 1 {
            stacked_codes_read(f, front, b, t, a, p, i);
            assert(front[a] == ts[a]);
            assert(at3(f, x.concat(last, 0), a, p, i) == at3(f, x, a, p, i));
        } else {
            assert(at3(f, x.concat(last, 0), a, p, i) == at3(f, last, 0, p, i));
        }
    }
}

/// The codes of a quantizer, number by number: the code of layer `l` is that of the
/// nearest row to what the layers before it leave over.
#[verifier::spinoff_prover]
pub proof fn quantizer_encode_reads(
    f: Functions,
    w: &ResidualVectorQuantizerWeights,
    xs: Tensor,
    b: int,
    t: int,
    p: int,
    l: int,
    i: int,
)
    requires
        w.sized(b, t),
        b >= 1,
        1 <= t <= usize::MAX,
        has(xs, seq![b, w.input_dim as int, t]),
        0 <= p < b,
        0 <= l < w.vq.layers@.len(),
        0 <= i < t,
    ensures
        at3(f, w.encoded(xs), p, l, i) == stage_code(f, w, |c: int| at3(f, xs, p, c, i), l) as real,
{
    broadcast use {extents, readings};

    let d = w.dim as int;
    let c_in = w.input_dim as int;
    let row = |c: int| at3(f, xs, p, c, i);
    channels_mapped_has(xs, w.input_proj_w, c_in, d, b, t);
    let x = channels_mapped(xs, w.input_proj_w, c_in, d);
    let mid = |j: int| mapped_row(f, row, w.input_proj_w, None, c_in, j);
    assert forall|c: int| 0 <= c < d implies #[trigger] at3(f, x, p, c, i) == mid(c) by {
        channels_read(f, xs, row, w.input_proj_w, c_in, d, b, t, p, c, i);
    }
    let n = w.vq.layers@.len() as int;
    rvq_encode_succeeds(&w.vq, x, d, b, t);
    let codes = Seq::new(n as nat, |k: int| w.vq.layer_codes(x, k));
    assert forall|k: int| 0 <= k < n implies has(#[trigger] codes[k], seq![b, t]) by {
        residual_has(&w.vq, x, k, d, b, t);
        assert(w.vq.layers@[k].sized(b, t));
        vq_encode_succeeds(&w.vq.layers@[k], w.vq.residual(x, k), b, t);
    }
    residual_has(&w.vq, x, n, d, b, t);
    stacked_codes_read(f, codes, b, t, l, p, i);
    left_over_reads(f, &w.vq, x, mid, l, d, b, t, p, i);
    residual_has(&w.vq, x, l, d, b, t);
    assert(w.vq.layers@[l].sized(b, t) && w.vq.layers@[l].dim == d);
    layer_code_reads(f, &w.vq.layers@[l], w.vq.residual(x, l), left_over(f, &w.vq, mid, l), b, t, p, i);
    assert(codes[l] == w.vq.layer_codes(x, l));
    assert(at3(f, w.encoded(xs), p, l, i) == at3(f, w.vq.encoded(x), l, p, i));
}

/// The codes of a signal, number by number: first the semantic code, then the
/// acoustic ones, each stack working on the signal itself.
pub proof fn codes_read(
    f: Functions,
    w: &SplitResidualVectorQuantizerWeights,
    xs: Tensor,
    d_in: int,
    d_out: int,
    b: int,
    t: int,
    p: int,
    q: int,
    i: int,
)
    requires
        w.sized(d_in, d_out, b, t),
        has(xs, seq![b, d_in, t]),
        0 <= p < b,
        0 <= q < w.n_q,
        0 <= i < t,
    ensures
        at3(f, w.encoded(xs), p, q, i) == (if q == 0 {
            stage_code(f, &w.rvq_first, |c: int| at3(f, xs, p, c, i), 0)
        } else {
            stage_code(f, &w.rvq_rest, |c: int| at3(f, xs, p, c, i), q - 1)
        }) as real,
{
    broadcast use {extents, readings};

    split_encode_succeeds(w, xs, d_in, d_out, b, t);
    quantizer_encode_succeeds(&w.rvq_first, xs, b, t);
    if q == 0 {
        quantizer_encode_reads(f, &w.rvq_first, xs, b, t, p, 0, i);
    } else {
        quantizer_encode_reads(f, &w.rvq_rest, xs, b, t, p, q - 1, i);
    }
    if w.n_q > 1 {
        quantizer_encode_succeeds(&w.rvq_rest, xs, b, t);
        let (x, y) = (w.rvq_first.encoded(xs), w.rvq_rest.encoded(xs));
        assert(at3(f, x.concat(y, 1), p, q, i) == if q < 1 {
            at3(f, x, p, q, i)
        } else {
            at3(f, y, p, q - 1, i)
        });
    }
}

} // verus!
