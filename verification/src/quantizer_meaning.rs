//! What the quantizers compute, number by number.

use crate::codec_extents::{
    channels_mapped_has, mapped_has, quantizer_decode_succeeds, rvq_decode_succeeds,
    split_decode_succeeds, summed_has, vq_decode_succeeds,
};
use crate::extents::{constant_has, extents, has, products, reshape_has};
use crate::lazy::Tensor;
use crate::lazy_mimi_quantization::{
    channels_mapped, EuclideanCodebookWeights, ResidualVectorQuantizationWeights,
    ResidualVectorQuantizerWeights, SplitResidualVectorQuantizerWeights, VectorQuantizationWeights,
};
use crate::meaning::{at1, at2, at3, number, sum, Functions, Row};
use crate::readings::{
    place1, place2, place3, read_conv1d_points, read_reshape, readings, sums_alike,
};
use crate::scalar::Data;
use vstd::prelude::*;

verus! {

/// Feature `j` of a row mapped by a matrix `(fan_out, fan_in)` and a bias, or of
/// the row itself.
pub open spec fn mapped_row(f: Functions, x: Row, w: Option<Data>, b: Option<Data>, fan_in: int, j: int) -> real {
    match w {
        None => x(j),
        Some(w) => sum(fan_in, |k: int| x(k) * number(f, w@[j * fan_in + k])) + match b {
            None => 0real,
            Some(b) => number(f, b@[j]),
        },
    }
}

/// Row `e` of a codebook.
pub open spec fn book_row(f: Functions, cb: &EuclideanCodebookWeights, e: int) -> Row {
    |k: int| number(f, cb.embedding@[e * cb.codebook_dim + k])
}

/// Feature `j` of what code `e` stands for in a layer: row `e` of its codebook,
/// projected.
pub open spec fn layer_row(f: Functions, w: &VectorQuantizationWeights, e: int, j: int) -> real {
    mapped_row(
        f,
        book_row(f, &w.codebook, e),
        w.project_out_w,
        w.project_out_b,
        w.codebook.codebook_dim as int,
        j,
    )
}

/// Feature `o` of what code `e` of layer `l` stands for in a quantizer.
pub open spec fn code_row(f: Functions, w: &ResidualVectorQuantizerWeights, l: int, e: int, o: int) -> real {
    mapped_row(
        f,
        |c: int| layer_row(f, &w.vq.layers@[l], e, c),
        w.output_proj_w,
        None,
        w.dim as int,
        o,
    )
}

/// Feature `o` of what code `e` of codebook `q` stands for: the first codebook is
/// the semantic one, the others are the acoustic ones.
pub open spec fn codebook_row(f: Functions, w: &SplitResidualVectorQuantizerWeights, q: int, e: int, o: int) -> real {
    if q == 0 {
        code_row(f, &w.rvq_first, 0, e, o)
    } else {
        code_row(f, &w.rvq_rest, q - 1, e, o)
    }
}

/// The code of codebook `q` at a position.
pub open spec fn code(f: Functions, codes: Tensor, b: int, q: int, t: int) -> int {
    at3(f, codes, b, q, t).floor()
}

/// Sums in either order.
pub proof fn sums_exchange(n: int, m: int, g: spec_fn(int, int) -> real)
    ensures
        sum(n, |a: int| sum(m, |b: int| g(a, b))) == sum(m, |b: int| sum(n, |a: int| g(a, b))),
    decreases n,
{
    if n <= 0 {
        sum_of_zeros(m, |b: int| sum(n, |a: int| g(a, b)));
    } else {
        sums_exchange(n - 1, m, g);
        let x = |b: int| sum(n - 1, |a: int| g(a, b));
        let y = |b: int| g(n - 1, b);
        let z = |b: int| sum(n, |a: int| g(a, b));
        assert forall|b: int| 0 <= b < m implies #[trigger] z(b) == x(b) + y(b) by {}
        sum_of_sums(m, z, x, y);
        assert(sum(m, |b: int| g(n - 1, b)) == sum(m, y));
    }
}

proof fn sum_of_zeros(n: int, g: Row)
    requires
        forall|k: int| 0 <= k < n ==> #[trigger] g(k) == 0real,
    ensures
        sum(n, g) == 0real,
    decreases n,
{
    if n > 0 {
        sum_of_zeros(n - 1, g);
        assert(g(n - 1) == 0real);
    }
}

/// A sum of sums.
pub proof fn sum_of_sums(n: int, z: Row, x: Row, y: Row)
    requires
        forall|k: int| 0 <= k < n ==> #[trigger] z(k) == x(k) + y(k),
    ensures
        sum(n, z) == sum(n, x) + sum(n, y),
    decreases n,
{
    if n > 0 {
        sum_of_sums(n - 1, z, x, y);
        assert(z(n - 1) == x(n - 1) + y(n - 1));
    }
}

/// The first number of a sum apart.
pub proof fn sum_from_front(n: int, g: Row)
    requires
        n >= 1,
    ensures
        sum(n, g) == g(0) + sum(n - 1, |k: int| g(k + 1)),
    decreases n,
{
    let h = |k: int| g(k + 1);
    if n > 1 {
        sum_from_front(n - 1, g);
        assert(sum(n - 1, h) == sum(n - 2, h) + h(n - 2));
    } else {
        assert(sum(1, g) == sum(0, g) + g(0));
        assert(sum(0, h) == 0real);
    }
}

/// A sum times a number.
proof fn sum_times(n: int, g: Row, c: real)
    ensures
        sum(n, g) * c == sum(n, |k: int| g(k) * c),
    decreases n,
{
    let h = |k: int| g(k) * c;
    if n > 0 {
        sum_times(n - 1, g, c);
        let (a, b) = (sum(n - 1, g), g(n - 1));
        assert((a + b) * c == a * c + b * c) by (nonlinear_arith);
        assert(sum(n, h) == sum(n - 1, h) + h(n - 1));
    } else {
        assert(0real * c == 0real) by (nonlinear_arith);
    }
}

/// A layer decodes each code to its row.
pub proof fn vq_decode_reads(f: Functions, w: &VectorQuantizationWeights, codes: Tensor, b: int, t: int, p: int, j: int, i: int)
    requires
        w.sized(b, t),
        has(codes, seq![b, t]),
        0 <= p < b,
        0 <= i < t,
        0 <= j < w.dim,
    ensures
        at3(f, w.decoded(codes), p, j, i) == layer_row(f, w, at2(f, codes, p, i).floor(), j),
{
    broadcast use {extents, readings};

    let n = w.codebook.codebook_size as int;
    let cd = w.codebook.codebook_dim as int;
    let d = w.dim as int;
    let m = b * t;
    vq_decode_succeeds(w, codes, b, t);
    assert(m >= 1 && m <= m * cd) by (nonlinear_arith)
        requires
            m == b * t,
            b >= 1,
            t >= 1,
            cd >= 1,
    ;
    products(b, t, 1, 1, 1, 1);
    products(m, 1, 1, 1, 1, 1);
    reshape_has(codes, seq![m]);
    let flat = codes.reshape(seq![m]);
    products(n, cd, 1, 1, 1, 1);
    constant_has(w.codebook.embedding@, seq![n, cd]);
    let picked = w.codebook.decoded(flat);
    assert(picked.dims =~= seq![m, cd]);
    products(m, cd, 1, 1, 1, 1);
    products(b, t, cd, 1, 1, 1);
    reshape_has(picked, seq![b, t, cd]);
    let x = picked.reshape(seq![b, t, cd]);
    let at_place = p * t + i;
    assert(0 <= at_place < m) by (nonlinear_arith)
        requires
            0 <= p < b,
            0 <= i < t,
            m == b * t,
            at_place == p * t + i,
    ;
    place2(p, i, b, t);
    place1(at_place, m);
    read_reshape(f, codes, seq![m], seq![p, i], seq![at_place]);
    let e = at2(f, codes, p, i).floor();
    let row = book_row(f, &w.codebook, e);
    assert forall|k: int| 0 <= k < cd implies #[trigger] at3(f, x, p, i, k) == row(k) by {
        place2(at_place, k, m, cd);
        place3(p, i, k, b, t, cd);
        read_reshape(f, picked, seq![b, t, cd], seq![at_place, k], seq![p, i, k]);
        assert(at2(f, picked, at_place, k) == at2(f, w.codebook.rows(), at1(f, flat, at_place).floor(), k));
    }
    mapped_has(x, w.project_out_w, w.project_out_b, cd, d, b, t);
    let y = crate::lazy_mimi_quantization::mapped(x, w.project_out_w, w.project_out_b, cd, d);
    mapped_reads(f, x, row, w.project_out_w, w.project_out_b, cd, d, b, t, p, i, j);
    assert(at3(f, w.decoded(codes), p, j, i) == at3(f, y, p, i, j));
}

/// A linear map of the last axis, number by number.
pub proof fn mapped_reads(
    f: Functions,
    x: Tensor,
    row: Row,
    w: Option<Data>,
    bias: Option<Data>,
    fan_in: int,
    fan_out: int,
    b: int,
    t: int,
    p: int,
    i: int,
    j: int,
)
    requires
        has(x, seq![b, t, fan_in]),
        fan_in >= 1,
        1 <= fan_out <= usize::MAX,
        match w {
            None => fan_in == fan_out,
            Some(w) => {
                &&& fan_out * fan_in <= usize::MAX
                &&& w@.len() == fan_out * fan_in
                &&& bias matches Some(v) ==> v@.len() == fan_out
            },
        },
        0 <= p < b,
        0 <= i < t,
        0 <= j < fan_out,
        forall|k: int| 0 <= k < fan_in ==> #[trigger] at3(f, x, p, i, k) == row(k),
    ensures
        at3(f, crate::lazy_mimi_quantization::mapped(x, w, bias, fan_in, fan_out), p, i, j) == mapped_row(
            f,
            row,
            w,
            bias,
            fan_in,
            j,
        ),
{
    broadcast use {extents, readings};

    mapped_has(x, w, bias, fan_in, fan_out, b, t);
    if let Some(w) = w {
        products(fan_out, fan_in, 1, 1, 1, 1);
        let c = Tensor::constant(w@, seq![fan_out, fan_in]);
        constant_has(w@, seq![fan_out, fan_in]);
        let m = c.permute(seq![1, 0]);
        let y = x.matmul(m);
        assert(has(y, seq![b, t, fan_out]));
        let g = |k: int| at3(f, x, p, i, k) * at2(f, m, k, j);
        let h = |k: int| row(k) * number(f, w@[j * fan_in + k]);
        assert forall|k: int| 0 <= k < fan_in implies #[trigger] g(k) == h(k) by {
            assert(at3(f, x, p, i, k) == row(k));
            assert(at2(f, m, k, j) == at2(f, c, j, k));
        }
        sums_alike(fan_in, g, h);
        assert(at3(f, y, p, i, j) == sum(fan_in, g));
    } else {
        assert(at3(f, x, p, i, j) == row(j));
    }
}

/// The sum of the rows of the first `n` layers.
proof fn summed_reads(
    f: Functions,
    w: &ResidualVectorQuantizationWeights,
    codes: Tensor,
    n: int,
    d: int,
    b: int,
    t: int,
    p: int,
    j: int,
    i: int,
)
    requires
        w.sized(d, b, t),
        1 <= n <= w.layers@.len(),
        has(codes, seq![w.layers@.len() as int, b, t]),
        b * t <= usize::MAX,
        0 <= p < b,
        0 <= i < t,
        0 <= j < d,
    ensures
        at3(f, w.summed(codes, n), p, j, i) == sum(
            n,
            |l: int| layer_row(f, &w.layers@[l], at3(f, codes, l, p, i).floor(), j),
        ),
    decreases n,
{
    broadcast use {extents, readings};

    let l = n - 1;
    let slice = codes.narrow(0, l, 1);
    assert(slice.dims =~= seq![1, b, t]);
    assert(w.layers@[l].sized(b, t));
    assert(b >= 1 && t >= 1);
    products(1, b, t, 1, 1, 1);
    products(b, t, 1, 1, 1, 1);
    assert(1 * b * t == b * t);
    reshape_has(slice, seq![b, t]);
    let flat = slice.reshape(seq![b, t]);
    place3(0, p, i, 1, b, t);
    place2(p, i, b, t);
    read_reshape(f, slice, seq![b, t], seq![0, p, i], seq![p, i]);
    assert(at3(f, slice, 0, p, i) == at3(f, codes, 0 + l, p, i));
    vq_decode_reads(f, &w.layers@[l], flat, b, t, p, j, i);
    vq_decode_succeeds(&w.layers@[l], flat, b, t);
    let g = |l: int| layer_row(f, &w.layers@[l], at3(f, codes, l, p, i).floor(), j);
    assert(at3(f, w.layer_signal(codes, l), p, j, i) == g(l));
    if n > 1 {
        summed_reads(f, w, codes, n - 1, d, b, t, p, j, i);
        summed_has(w, codes, n - 1, d, b, t);
        assert(at3(f, w.summed(codes, n), p, j, i) == at3(f, w.summed(codes, n - 1), p, j, i) + g(l));
    } else {
        assert(sum(1, g) == sum(0, g) + g(0));
        assert(sum(0, g) == 0real);
    }
}

/// A map of the channels, number by number.
pub proof fn channels_read(
    f: Functions,
    x: Tensor,
    row: Row,
    w: Option<Data>,
    c_in: int,
    c_out: int,
    b: int,
    t: int,
    p: int,
    o: int,
    i: int,
)
    requires
        has(x, seq![b, c_in, t]),
        c_in >= 1,
        c_out >= 1,
        1 <= t <= usize::MAX,
        c_out * c_in <= usize::MAX,
        match w {
            None => c_in == c_out,
            Some(v) => v@.len() == c_out * c_in,
        },
        0 <= p < b,
        0 <= o < c_out,
        0 <= i < t,
        forall|c: int| 0 <= c < c_in ==> #[trigger] at3(f, x, p, c, i) == row(c),
    ensures
        at3(f, channels_mapped(x, w, c_in, c_out), p, o, i) == mapped_row(f, row, w, None, c_in, o),
{
    broadcast use readings;

    channels_mapped_has(x, w, c_in, c_out, b, t);
    if let Some(v) = w {
        products(c_out, c_in, 1, 1, 1, 1);
        constant_has(v@, seq![c_out, c_in, 1]);
        let k = Tensor::constant(v@, seq![c_out, c_in, 1]);
        read_conv1d_points(f, x, k, p, o, i);
        let g = |c: int| at3(f, x, p, c, i) * at3(f, k, o, c, 0);
        let h = |c: int| row(c) * number(f, v@[o * c_in + c]);
        assert forall|c: int| 0 <= c < c_in implies #[trigger] g(c) == h(c) by {
            assert(at3(f, x, p, c, i) == row(c));
            assert((o * c_in + c) * 1 + 0 == o * c_in + c);
        }
        sums_alike(c_in, g, h);
    } else {
        assert(at3(f, x, p, o, i) == row(o));
    }
}

/// A quantizer decodes to the sum, over its layers, of what their codes stand for.
pub proof fn quantizer_decode_reads(
    f: Functions,
    w: &ResidualVectorQuantizerWeights,
    codes: Tensor,
    b: int,
    t: int,
    p: int,
    o: int,
    i: int,
)
    requires
        w.sized(b, t),
        b >= 1,
        1 <= t <= usize::MAX,
        has(codes, seq![b, w.vq.layers@.len() as int, t]),
        0 <= p < b,
        0 <= o < w.output_dim,
        0 <= i < t,
    ensures
        at3(f, w.decoded(codes), p, o, i) == sum(
            w.vq.layers@.len() as int,
            |l: int| code_row(f, w, l, code(f, codes, p, l, i), o),
        ),
{
    broadcast use {extents, readings};

    let n = w.vq.layers@.len() as int;
    let d = w.dim as int;
    let turned = codes.permute(seq![1, 0, 2]);
    assert(has(turned, seq![n, b, t]));
    rvq_decode_succeeds(&w.vq, turned, d, b, t);
    let y = w.vq.decoded(turned);
    let row = |c: int| sum(n, |l: int| layer_row(f, &w.vq.layers@[l], code(f, codes, p, l, i), c));
    assert forall|c: int| 0 <= c < d implies #[trigger] at3(f, y, p, c, i) == row(c) by {
        summed_reads(f, &w.vq, turned, n, d, b, t, p, c, i);
        let g = |l: int| layer_row(f, &w.vq.layers@[l], at3(f, turned, l, p, i).floor(), c);
        let h = |l: int| layer_row(f, &w.vq.layers@[l], code(f, codes, p, l, i), c);
        assert forall|l: int| 0 <= l < n implies #[trigger] g(l) == h(l) by {
            assert(at3(f, turned, l, p, i) == at3(f, codes, p, l, i));
        }
        sums_alike(n, g, h);
    }
    channels_read(f, y, row, w.output_proj_w, d, w.output_dim as int, b, t, p, o, i);
    let want = |l: int| code_row(f, w, l, code(f, codes, p, l, i), o);
    if let Some(v) = w.output_proj_w {
        let pair = |l: int, c: int|
            layer_row(f, &w.vq.layers@[l], code(f, codes, p, l, i), c) * number(f, v@[o * d + c]);
        let by_channel = |c: int| row(c) * number(f, v@[o * d + c]);
        let swapped = |c: int| sum(n, |l: int| pair(l, c));
        assert forall|c: int| 0 <= c < d implies #[trigger] by_channel(c) == swapped(c) by {
            let g = |l: int| layer_row(f, &w.vq.layers@[l], code(f, codes, p, l, i), c);
            sum_times(n, g, number(f, v@[o * d + c]));
            sums_alike(n, |l: int| g(l) * number(f, v@[o * d + c]), |l: int| pair(l, c));
        }
        sums_alike(d, by_channel, swapped);
        sums_exchange(n, d, pair);
        let by_layer = |l: int| sum(d, |c: int| pair(l, c));
        assert forall|l: int| 0 <= l < n implies #[trigger] by_layer(l) == want(l) by {
            let x = |c: int| layer_row(f, &w.vq.layers@[l], code(f, codes, p, l, i), c);
            sums_alike(d, |c: int| pair(l, c), |c: int| x(c) * number(f, v@[o * d + c]));
        }
        sums_alike(n, by_layer, want);
    } else {
        sums_alike(n, |l: int| layer_row(f, &w.vq.layers@[l], code(f, codes, p, l, i), o), want);
    }
}

/// The signal decoded from `n_q` codes is, number by number, the sum over all `n_q`
/// codebooks of the projected row that the code of the codebook selects.
pub proof fn decoding_adds_up_all_codebooks(
    f: Functions,
    w: &SplitResidualVectorQuantizerWeights,
    codes: Tensor,
    d_in: int,
    d_out: int,
    b: int,
    t: int,
    p: int,
    o: int,
    i: int,
)
    requires
        w.sized(d_in, d_out, b, t),
        has(codes, seq![b, w.n_q as int, t]),
        0 <= p < b,
        0 <= o < d_out,
        0 <= i < t,
    ensures
        at3(f, w.decoded(codes), p, o, i) == sum(
            w.n_q as int,
            |q: int| codebook_row(f, w, q, code(f, codes, p, q, i), o),
        ),
{
    broadcast use {extents, readings};

    let n = w.n_q as int;
    let first = codes.narrow(1, 0, 1);
    assert(first.dims =~= seq![b, 1, t]);
    quantizer_decode_succeeds(&w.rvq_first, first, b, t);
    quantizer_decode_reads(f, &w.rvq_first, first, b, t, p, o, i);
    let g = |q: int| codebook_row(f, w, q, code(f, codes, p, q, i), o);
    let g0 = |l: int| code_row(f, &w.rvq_first, l, code(f, first, p, l, i), o);
    assert(sum(1, g0) == sum(0, g0) + g0(0));
    assert(sum(0, g0) == 0real);
    assert(at3(f, first, p, 0, i) == at3(f, codes, p, 0, i));
    assert(g0(0) == g(0));
    sum_from_front(n, g);
    if n > 1 {
        let rest = codes.narrow(1, 1, n - 1);
        assert(rest.dims =~= seq![b, n - 1, t]);
        quantizer_decode_succeeds(&w.rvq_rest, rest, b, t);
        quantizer_decode_reads(f, &w.rvq_rest, rest, b, t, p, o, i);
        let g1 = |l: int| code_row(f, &w.rvq_rest, l, code(f, rest, p, l, i), o);
        let g2 = |k: int| g(k + 1);
        assert forall|l: int| 0 <= l < n - 1 implies #[trigger] g1(l) == g2(l) by {
            assert(at3(f, rest, p, l, i) == at3(f, codes, p, l + 1, i));
        }
        sums_alike(n - 1, g1, g2);
        split_decode_succeeds(w, codes, d_in, d_out, b, t);
        let (x, y) = (w.rvq_first.decoded(first), w.rvq_rest.decoded(rest));
        assert(at3(f, x.add(y), p, o, i) == at3(f, x, p, o, i) + at3(f, y, p, o, i));
    } else {
        assert(sum(n - 1, |k: int| g(k + 1)) == 0real);
    }
}

/// Two lists of codes that differ, at a position, in one codebook alone decode, at
/// that position, to signals that differ by the difference of the two projected
/// rows.
pub proof fn one_code_changes_one_row(
    f: Functions,
    w: &SplitResidualVectorQuantizerWeights,
    codes: Tensor,
    others: Tensor,
    d_in: int,
    d_out: int,
    b: int,
    t: int,
    p: int,
    o: int,
    i: int,
    q: int,
)
    requires
        w.sized(d_in, d_out, b, t),
        has(codes, seq![b, w.n_q as int, t]),
        has(others, seq![b, w.n_q as int, t]),
        0 <= p < b,
        0 <= o < d_out,
        0 <= i < t,
        0 <= q < w.n_q,
        forall|k: int|
            0 <= k < w.n_q && k != q ==> #[trigger] code(f, codes, p, k, i) == code(f, others, p, k, i),
    ensures
        at3(f, w.decoded(codes), p, o, i) - at3(f, w.decoded(others), p, o, i) == codebook_row(
            f,
            w,
            q,
            code(f, codes, p, q, i),
            o,
        ) - codebook_row(f, w, q, code(f, others, p, q, i), o),
{
    decoding_adds_up_all_codebooks(f, w, codes, d_in, d_out, b, t, p, o, i);
    decoding_adds_up_all_codebooks(f, w, others, d_in, d_out, b, t, p, o, i);
    let g = |k: int| codebook_row(f, w, k, code(f, codes, p, k, i), o);
    let h = |k: int| codebook_row(f, w, k, code(f, others, p, k, i), o);
    assert forall|k: int| 0 <= k < w.n_q && k != q implies #[trigger] g(k) == h(k) by {
        assert(code(f, codes, p, k, i) == code(f, others, p, k, i));
    }
    one_term_differs(w.n_q as int, g, h, q);
}

/// Sums that differ in one number.
proof fn one_term_differs(n: int, g: Row, h: Row, q: int)
    requires
        0 <= q < n,
        forall|k: int| 0 <= k < n && k != q ==> #[trigger] g(k) == h(k),
    ensures
        sum(n, g) - sum(n, h) == g(q) - h(q),
    decreases n,
{
    if q == n - 1 {
        sums_alike(n - 1, g, h);
    } else {
        one_term_differs(n - 1, g, h, q);
        assert(g(n - 1) == h(n - 1));
    }
}

} // verus!
