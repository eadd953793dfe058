//! Extents of tensor expressions.
//!
//! Each operation on operands of fitting extents succeeds, and the extents of
//! its result are known. From these facts each model shows that it succeeds on
//! weights of the declared sizes, and what the extents of its result are.

use crate::lazy::Tensor;
use crate::scalar::Scalar;
use crate::shape::{
    aligned, broadcast_rule, fits, grouped, has_windows, max_rank, product, stretches, windows,
};
use vstd::prelude::*;

verus! {

/// Whether `t` could be built and has the extents `d`.
pub open spec fn has(t: Tensor, d: Seq<int>) -> bool {
    &&& !t.bad()
    &&& t.dims == d
}

pub broadcast proof fn neg_keeps(t: Tensor)
    ensures
        (#[trigger] t.neg()).bad() == t.bad(),
        t.neg().dims == t.dims,
{
    reveal(Tensor::neg);
}

pub broadcast proof fn exp_keeps(t: Tensor)
    ensures
        (#[trigger] t.exp()).bad() == t.bad(),
        t.exp().dims == t.dims,
{
    reveal(Tensor::exp);
}

pub broadcast proof fn log_keeps(t: Tensor)
    ensures
        (#[trigger] t.log()).bad() == t.bad(),
        t.log().dims == t.dims,
{
    reveal(Tensor::log);
}

pub broadcast proof fn sqrt_keeps(t: Tensor)
    ensures
        (#[trigger] t.sqrt()).bad() == t.bad(),
        t.sqrt().dims == t.dims,
{
    reveal(Tensor::sqrt);
}

pub broadcast proof fn sin_keeps(t: Tensor)
    ensures
        (#[trigger] t.sin()).bad() == t.bad(),
        t.sin().dims == t.dims,
{
    reveal(Tensor::sin);
}

pub broadcast proof fn cos_keeps(t: Tensor)
    ensures
        (#[trigger] t.cos()).bad() == t.bad(),
        t.cos().dims == t.dims,
{
    reveal(Tensor::cos);
}

pub broadcast proof fn silu_keeps(t: Tensor)
    ensures
        (#[trigger] t.silu()).bad() == t.bad(),
        t.silu().dims == t.dims,
{
    reveal(Tensor::silu);
}

pub broadcast proof fn relu_keeps(t: Tensor)
    ensures
        (#[trigger] t.relu()).bad() == t.bad(),
        t.relu().dims == t.dims,
{
    reveal(Tensor::relu);
}

pub broadcast proof fn gelu_keeps(t: Tensor)
    ensures
        (#[trigger] t.gelu()).bad() == t.bad(),
        t.gelu().dims == t.dims,
{
    reveal(Tensor::gelu);
}

pub broadcast proof fn gelu_erf_keeps(t: Tensor)
    ensures
        (#[trigger] t.gelu_erf()).bad() == t.bad(),
        t.gelu_erf().dims == t.dims,
{
    reveal(Tensor::gelu_erf);
}

pub broadcast proof fn sigmoid_keeps(t: Tensor)
    ensures
        (#[trigger] t.sigmoid()).bad() == t.bad(),
        t.sigmoid().dims == t.dims,
{
    reveal(Tensor::sigmoid);
}

pub broadcast proof fn softmax_last_dim_keeps(t: Tensor)
    ensures
        (#[trigger] t.softmax_last_dim()).bad() == t.bad(),
        t.softmax_last_dim().dims == t.dims,
{
    reveal(Tensor::softmax_last_dim);
}

pub broadcast proof fn elu_keeps(t: Tensor, s: Scalar)
    ensures
        (#[trigger] t.elu(s)).bad() == t.bad(),
        t.elu(s).dims == t.dims,
{
    reveal(Tensor::elu);
}

pub broadcast proof fn mul_scalar_keeps(t: Tensor, s: Scalar)
    ensures
        (#[trigger] t.mul_scalar(s)).bad() == t.bad(),
        t.mul_scalar(s).dims == t.dims,
{
    reveal(Tensor::mul_scalar);
}

pub broadcast proof fn add_scalar_keeps(t: Tensor, s: Scalar)
    ensures
        (#[trigger] t.add_scalar(s)).bad() == t.bad(),
        t.add_scalar(s).dims == t.dims,
{
    reveal(Tensor::add_scalar);
}

pub broadcast proof fn layer_norm_last_dim_keeps(t: Tensor, s: Scalar)
    ensures
        (#[trigger] t.layer_norm_last_dim(s)).bad() == t.bad(),
        t.layer_norm_last_dim(s).dims == t.dims,
{
    reveal(Tensor::layer_norm_last_dim);
}

pub broadcast proof fn rms_norm_last_dim_keeps(t: Tensor, s: Scalar)
    ensures
        (#[trigger] t.rms_norm_last_dim(s)).bad() == t.bad(),
        t.rms_norm_last_dim(s).dims == t.dims,
{
    reveal(Tensor::rms_norm_last_dim);
}

pub broadcast proof fn add_keeps(a: Tensor, b: Tensor)
    requires
        !a.bad(),
        !b.bad(),
        a.dims =~= b.dims,
    ensures
        !(#[trigger] a.add(b)).bad(),
        a.add(b).dims == a.dims,
{
    reveal(Tensor::add);
}

pub broadcast proof fn sub_keeps(a: Tensor, b: Tensor)
    requires
        !a.bad(),
        !b.bad(),
        a.dims =~= b.dims,
    ensures
        !(#[trigger] a.sub(b)).bad(),
        a.sub(b).dims == a.dims,
{
    reveal(Tensor::sub);
}

pub broadcast proof fn mul_keeps(a: Tensor, b: Tensor)
    requires
        !a.bad(),
        !b.bad(),
        a.dims =~= b.dims,
    ensures
        !(#[trigger] a.mul(b)).bad(),
        a.mul(b).dims == a.dims,
{
    reveal(Tensor::mul);
}

pub broadcast proof fn div_keeps(a: Tensor, b: Tensor)
    requires
        !a.bad(),
        !b.bad(),
        a.dims =~= b.dims,
    ensures
        !(#[trigger] a.div(b)).bad(),
        a.div(b).dims == a.dims,
{
    reveal(Tensor::div);
}

/// A row stretches over the last axis.
proof fn row_stretches(a: Seq<int>, n: int)
    requires
        a.len() >= 1,
        a.last() == n,
    ensures
        broadcast_rule(a, seq![n]) == Some(a),
{
    let b = seq![n];
    let r = max_rank(a, b);
    assert forall|i: int| 0 <= i < r implies (stretches(#[trigger] aligned(a, r, i), aligned(b, r, i))
        || aligned(b, r, i) == 1) by {}
    assert(broadcast_rule(a, b)->Some_0 =~= a);
}

/// Extents that are one or agree stretch to the larger ones.
pub open spec fn lies_under(b: Seq<int>, a: Seq<int>) -> bool {
    b.len() == a.len() && forall|i: int| 0 <= i < a.len() ==> (#[trigger] b[i] == 1 || b[i] == a[i])
}

proof fn under_stretches(a: Seq<int>, b: Seq<int>)
    requires
        lies_under(b, a),
    ensures
        broadcast_rule(a, b) == Some(a),
{
    let r = max_rank(a, b);
    assert forall|i: int| 0 <= i < r implies (stretches(#[trigger] aligned(a, r, i), aligned(b, r, i))
        || aligned(b, r, i) == 1) by {
        assert(b[i] == 1 || b[i] == a[i]);
    }
    assert forall|i: int| 0 <= i < r implies #[trigger] broadcast_rule(a, b)->Some_0[i] == a[i] by {
        assert(b[i] == 1 || b[i] == a[i]);
    }
    assert(broadcast_rule(a, b)->Some_0 =~= a);
}

pub broadcast proof fn broadcast_add_row(a: Tensor, b: Tensor)
    requires
        !a.bad(),
        !b.bad(),
        a.dims.len() >= 1,
        b.dims.len() == 1,
        b.dims[0] == a.dims.last(),
    ensures
        !(#[trigger] a.broadcast_add(b)).bad(),
        a.broadcast_add(b).dims == a.dims,
{
    reveal(Tensor::broadcast_add);
    row_stretches(a.dims, b.dims[0]);
    assert(b.dims =~= seq![b.dims[0]]);
}

pub proof fn broadcast_add_under(a: Tensor, b: Tensor)
    requires
        !a.bad(),
        !b.bad(),
        lies_under(b.dims, a.dims),
    ensures
        has(a.broadcast_add(b), a.dims),
{
    reveal(Tensor::broadcast_add);
    under_stretches(a.dims, b.dims);
}

pub broadcast proof fn broadcast_sub_row(a: Tensor, b: Tensor)
    requires
        !a.bad(),
        !b.bad(),
        a.dims.len() >= 1,
        b.dims.len() == 1,
        b.dims[0] == a.dims.last(),
    ensures
        !(#[trigger] a.broadcast_sub(b)).bad(),
        a.broadcast_sub(b).dims == a.dims,
{
    reveal(Tensor::broadcast_sub);
    row_stretches(a.dims, b.dims[0]);
    assert(b.dims =~= seq![b.dims[0]]);
}

pub broadcast proof fn broadcast_mul_row(a: Tensor, b: Tensor)
    requires
        !a.bad(),
        !b.bad(),
        a.dims.len() >= 1,
        b.dims.len() == 1,
        b.dims[0] == a.dims.last(),
    ensures
        !(#[trigger] a.broadcast_mul(b)).bad(),
        a.broadcast_mul(b).dims == a.dims,
{
    reveal(Tensor::broadcast_mul);
    row_stretches(a.dims, b.dims[0]);
    assert(b.dims =~= seq![b.dims[0]]);
}

pub proof fn broadcast_mul_under(a: Tensor, b: Tensor)
    requires
        !a.bad(),
        !b.bad(),
        lies_under(b.dims, a.dims),
    ensures
        has(a.broadcast_mul(b), a.dims),
{
    reveal(Tensor::broadcast_mul);
    under_stretches(a.dims, b.dims);
}

/// The numbers of elements under up to six extents.
pub proof fn products(a: int, b: int, c: int, d: int, e: int, f: int)
    ensures
        product(seq![a]) == a,
        product(seq![a, b]) == a * b,
        product(seq![a, b, c]) == a * b * c,
        product(seq![a, b, c, d]) == a * b * c * d,
        product(seq![a, b, c, d, e]) == a * b * c * d * e,
        product(seq![a, b, c, d, e, f]) == a * b * c * d * e * f,
{
    assert(seq![a, b, c, d, e, f].drop_last() =~= seq![a, b, c, d, e]);
    assert(seq![a, b, c, d, e].drop_last() =~= seq![a, b, c, d]);
    assert(seq![a, b, c, d].drop_last() =~= seq![a, b, c]);
    assert(seq![a, b, c].drop_last() =~= seq![a, b]);
    assert(seq![a, b].drop_last() =~= seq![a]);
    assert(seq![a].drop_last() =~= Seq::<int>::empty());
    assert(product(Seq::<int>::empty()) == 1);
    assert(product(seq![a]) == 1 * a);
    assert(product(seq![a, b]) == product(seq![a]) * b);
    assert(product(seq![a, b, c]) == product(seq![a, b]) * c);
    assert(product(seq![a, b, c, d]) == product(seq![a, b, c]) * d);
    assert(product(seq![a, b, c, d, e]) == product(seq![a, b, c, d]) * e);
    assert(product(seq![a, b, c, d, e, f]) == product(seq![a, b, c, d, e]) * f);
}

/// Every extent is positive, and the elements can be counted.
pub open spec fn addressable(d: Seq<int>) -> bool {
    &&& forall|i: int| 0 <= i < d.len() ==> #[trigger] d[i] >= 1
    &&& product(d) <= usize::MAX
}

pub proof fn addressable_fits(d: Seq<int>)
    requires
        addressable(d),
    ensures
        fits(d),
        product(d) >= 1,
    decreases d.len(),
{
    if d.len() > 0 {
        let front = d.drop_last();
        assert forall|i: int| 0 <= i < front.len() implies #[trigger] front[i] >= 1 by {
            assert(d[i] >= 1);
        }
        product_positive(front);
        assert(d[d.len() - 1] >= 1);
        assert(product(front) <= product(front) * d.last()) by (nonlinear_arith)
            requires
                product(front) >= 1,
                d.last() >= 1,
        ;
        addressable_fits(front);
        assert(product(d) >= 1);
    }
}

proof fn product_positive(d: Seq<int>)
    requires
        forall|i: int| 0 <= i < d.len() ==> #[trigger] d[i] >= 1,
    ensures
        product(d) >= 1,
    decreases d.len(),
{
    if d.len() > 0 {
        let front = d.drop_last();
        assert forall|i: int| 0 <= i < front.len() implies #[trigger] front[i] >= 1 by {
            assert(d[i] >= 1);
        }
        product_positive(front);
        assert(d[d.len() - 1] >= 1);
        assert(product(front) * d.last() >= 1) by (nonlinear_arith)
            requires
                product(front) >= 1,
                d.last() >= 1,
        ;
    }
}

/// The same number of elements under other extents.
pub proof fn reshape_has(t: Tensor, to: Seq<int>)
    requires
        !t.bad(),
        addressable(t.dims),
        addressable(to),
        product(t.dims) == product(to),
    ensures
        has(t.reshape(to), to),
{
    reveal(Tensor::reshape);
    addressable_fits(t.dims);
    addressable_fits(to);
}

/// Given numbers under extents that they fill.
pub proof fn constant_has(data: Seq<Scalar>, d: Seq<int>)
    requires
        addressable(d),
        product(d) == data.len(),
    ensures
        has(Tensor::constant(data, d), d),
{
    reveal(Tensor::constant);
    addressable_fits(d);
}

pub broadcast proof fn constant_row(data: Seq<Scalar>, d: Seq<int>)
    requires
        d.len() == 1,
        d[0] == data.len(),
        1 <= d[0] <= usize::MAX,
    ensures
        !(#[trigger] Tensor::constant(data, d)).bad(),
        Tensor::constant(data, d).dims == d,
{
    products(d[0], 1, 1, 1, 1, 1);
    assert(d =~= seq![d[0]]);
    constant_has(data, d);
}

pub broadcast proof fn linear_matrix(t: Tensor, w: Seq<Scalar>, i: int, o: int)
    requires
        !t.bad(),
        t.dims.len() == 2,
        t.dims[1] == i,
        w.len() == i * o,
        i >= 1,
        o >= 1,
        i * o <= usize::MAX,
    ensures
        !(#[trigger] t.linear(w, i, o)).bad(),
        t.linear(w, i, o).dims == seq![t.dims[0], o],
{
    reveal(Tensor::linear);
    products(i, o, 1, 1, 1, 1);
    constant_has(w, seq![i, o]);
    assert(t.dims.update(1, o) =~= seq![t.dims[0], o]);
}

pub broadcast proof fn linear_tokens(t: Tensor, w: Seq<Scalar>, i: int, o: int)
    requires
        !t.bad(),
        t.dims.len() == 3,
        t.dims[2] == i,
        w.len() == i * o,
        i >= 1,
        o >= 1,
        i * o <= usize::MAX,
    ensures
        !(#[trigger] t.linear(w, i, o)).bad(),
        t.linear(w, i, o).dims == seq![t.dims[0], t.dims[1], o],
{
    reveal(Tensor::linear);
    products(i, o, 1, 1, 1, 1);
    constant_has(w, seq![i, o]);
    assert(t.dims.update(2, o) =~= seq![t.dims[0], t.dims[1], o]);
}

pub broadcast proof fn matmul_heads(a: Tensor, b: Tensor)
    requires
        !a.bad(),
        !b.bad(),
        a.dims.len() == 4,
        b.dims.len() == 4,
        a.dims[0] == b.dims[0],
        a.dims[1] == b.dims[1],
        a.dims[3] == b.dims[2],
    ensures
        !(#[trigger] a.matmul(b)).bad(),
        a.matmul(b).dims == seq![a.dims[0], a.dims[1], a.dims[2], b.dims[3]],
{
    reveal(Tensor::matmul);
    assert(a.dims.take(2) =~= b.dims.take(2));
    assert(a.dims.update(3, b.dims[3]) =~= seq![a.dims[0], a.dims[1], a.dims[2], b.dims[3]]);
}

pub broadcast proof fn matmul_batches(a: Tensor, b: Tensor)
    requires
        !a.bad(),
        !b.bad(),
        a.dims.len() == 3,
        b.dims.len() == 3,
        a.dims[0] == b.dims[0],
        a.dims[2] == b.dims[1],
    ensures
        !(#[trigger] a.matmul(b)).bad(),
        a.matmul(b).dims == seq![a.dims[0], a.dims[1], b.dims[2]],
{
    reveal(Tensor::matmul);
    assert(a.dims.take(1) =~= b.dims.take(1));
    assert(a.dims.update(2, b.dims[2]) =~= seq![a.dims[0], a.dims[1], b.dims[2]]);
}

pub broadcast proof fn matmul_matrices(a: Tensor, b: Tensor)
    requires
        !a.bad(),
        !b.bad(),
        a.dims.len() == 2,
        b.dims.len() == 2,
        a.dims[1] == b.dims[0],
    ensures
        !(#[trigger] a.matmul(b)).bad(),
        a.matmul(b).dims == seq![a.dims[0], b.dims[1]],
{
    reveal(Tensor::matmul);
    assert(a.dims.update(1, b.dims[1]) =~= seq![a.dims[0], b.dims[1]]);
}

pub broadcast proof fn matmul_shared(a: Tensor, b: Tensor)
    requires
        !a.bad(),
        !b.bad(),
        a.dims.len() == 3,
        b.dims.len() == 2,
        a.dims[2] == b.dims[0],
    ensures
        !(#[trigger] a.matmul(b)).bad(),
        a.matmul(b).dims == seq![a.dims[0], a.dims[1], b.dims[1]],
{
    reveal(Tensor::matmul);
    assert(a.dims.update(2, b.dims[1]) =~= seq![a.dims[0], a.dims[1], b.dims[1]]);
}

pub broadcast proof fn transpose_heads(t: Tensor)
    requires
        !t.bad(),
        t.dims.len() == 4,
    ensures
        !(#[trigger] t.transpose()).bad(),
        t.transpose().dims == seq![t.dims[0], t.dims[1], t.dims[3], t.dims[2]],
{
    reveal(Tensor::transpose);
    assert(t.transpose().dims =~= seq![t.dims[0], t.dims[1], t.dims[3], t.dims[2]]);
}

pub proof fn permute_axes(t: Tensor, ax: Seq<int>)
    requires
        !t.bad(),
        ax.len() == t.dims.len(),
        forall|i: int| 0 <= i < ax.len() ==> 0 <= #[trigger] ax[i] < t.dims.len(),
        forall|i: int, j: int| 0 <= i < j < ax.len() ==> #[trigger] ax[i] != #[trigger] ax[j],
    ensures
        !t.permute(ax).bad(),
        t.permute(ax).dims.len() == ax.len(),
        forall|i: int| 0 <= i < ax.len() ==> #[trigger] t.permute(ax).dims[i] == t.dims[ax[i]],
{
    reveal(Tensor::permute);
}

pub broadcast proof fn permute_heads(t: Tensor, ax: Seq<int>)
    requires
        !t.bad(),
        t.dims.len() == 4,
        ax =~= seq![0, 2, 1, 3],
    ensures
        !(#[trigger] t.permute(ax)).bad(),
        t.permute(ax).dims == seq![t.dims[0], t.dims[2], t.dims[1], t.dims[3]],
{
    permute_axes(t, ax);
    assert(t.permute(ax).dims =~= seq![t.dims[0], t.dims[2], t.dims[1], t.dims[3]]);
}

pub broadcast proof fn permute_tokens(t: Tensor, ax: Seq<int>)
    requires
        !t.bad(),
        t.dims.len() == 3,
        ax =~= seq![0, 2, 1],
    ensures
        !(#[trigger] t.permute(ax)).bad(),
        t.permute(ax).dims == seq![t.dims[0], t.dims[2], t.dims[1]],
{
    permute_axes(t, ax);
    assert(t.permute(ax).dims =~= seq![t.dims[0], t.dims[2], t.dims[1]]);
}

pub broadcast proof fn permute_front(t: Tensor, ax: Seq<int>)
    requires
        !t.bad(),
        t.dims.len() == 3,
        ax =~= seq![1, 0, 2],
    ensures
        !(#[trigger] t.permute(ax)).bad(),
        t.permute(ax).dims == seq![t.dims[1], t.dims[0], t.dims[2]],
{
    permute_axes(t, ax);
    assert(t.permute(ax).dims =~= seq![t.dims[1], t.dims[0], t.dims[2]]);
}

pub broadcast proof fn permute_matrix(t: Tensor, ax: Seq<int>)
    requires
        !t.bad(),
        t.dims.len() == 2,
        ax =~= seq![1, 0],
    ensures
        !(#[trigger] t.permute(ax)).bad(),
        t.permute(ax).dims == seq![t.dims[1], t.dims[0]],
{
    permute_axes(t, ax);
    assert(t.permute(ax).dims =~= seq![t.dims[1], t.dims[0]]);
}

pub broadcast proof fn split_heads_has(t: Tensor, heads: int, width: int)
    requires
        !t.bad(),
        t.dims.len() == 3,
        t.dims[2] == heads * width,
    ensures
        !(#[trigger] t.split_heads(heads, width)).bad(),
        t.split_heads(heads, width).dims == seq![t.dims[0], heads, t.dims[1], width],
{
    reveal(Tensor::split_heads);
}

pub broadcast proof fn merge_heads_has(t: Tensor)
    requires
        !t.bad(),
        t.dims.len() == 4,
        t.dims[1] * t.dims[3] <= usize::MAX,
    ensures
        !(#[trigger] t.merge_heads()).bad(),
        t.merge_heads().dims == seq![t.dims[0], t.dims[2], t.dims[1] * t.dims[3]],
{
    reveal(Tensor::merge_heads);
}

pub broadcast proof fn rope_keeps(t: Tensor, c: Tensor, s: Tensor)
    requires
        !t.bad(),
        !c.bad(),
        !s.bad(),
        t.dims.len() == 4,
        t.dims[3] % 2 == 0,
        c.dims =~= seq![t.dims[2], t.dims[3]],
        s.dims =~= c.dims,
    ensures
        !(#[trigger] t.rope_with_tables(c, s)).bad(),
        t.rope_with_tables(c, s).dims == t.dims,
{
    reveal(Tensor::rope_with_tables);
}

pub broadcast proof fn rope_tables_have(theta: Scalar, start: int, seq: int, width: int)
    ensures
        !(#[trigger] Tensor::rope_cos(theta, start, seq, width)).bad(),
        Tensor::rope_cos(theta, start, seq, width).dims == seq![seq, width],
        !Tensor::rope_sin(theta, start, seq, width).bad(),
        Tensor::rope_sin(theta, start, seq, width).dims == seq![seq, width],
{
    reveal(Tensor::rope_cos);
    reveal(Tensor::rope_sin);
}

/// Embeddings of tokens.
pub proof fn embed_has(table: Seq<Scalar>, vocab: int, width: int, tokens: Seq<u32>)
    requires
        table.len() == vocab * width,
        vocab >= 1,
        width >= 1,
        tokens.len() >= 1,
        vocab * width <= usize::MAX,
        tokens.len() * width <= usize::MAX,
    ensures
        has(Tensor::embed_tokens(table, vocab, width, tokens), seq![1, tokens.len() as int, width]),
{
    let n = tokens.len() as int;
    reveal(Tensor::ids);
    reveal(Tensor::index_select);
    products(vocab, width, 1, 1, 1, 1);
    constant_has(table, seq![vocab, width]);
    let picked = Tensor::constant(table, seq![vocab, width]).index_select(0, Tensor::ids(tokens));
    assert(picked.dims =~= seq![n, width]);
    products(n, width, 1, 1, 1, 1);
    products(1, n, width, 1, 1, 1);
    assert(1 * n * width == n * width);
    reshape_has(picked, seq![1, n, width]);
}

/// The last axis of `(b, s, h * w)` cut into heads.
pub proof fn reshape_splits(t: Tensor, b: int, s: int, h: int, w: int)
    requires
        has(t, seq![b, s, h * w]),
        b >= 1,
        s >= 1,
        h >= 1,
        w >= 1,
        b * s * (h * w) <= usize::MAX,
    ensures
        has(t.reshape(seq![b, s, h, w]), seq![b, s, h, w]),
{
    products(b, s, h * w, 1, 1, 1);
    products(b, s, h, w, 1, 1);
    assert(h * w >= 1) by (nonlinear_arith)
        requires
            h >= 1,
            w >= 1,
    ;
    assert(b * s * h * w == b * s * (h * w)) by (nonlinear_arith);
    reshape_has(t, seq![b, s, h, w]);
}

/// The heads of `(b, s, h, w)` put side by side.
pub proof fn reshape_merges(t: Tensor, b: int, s: int, h: int, w: int)
    requires
        has(t, seq![b, s, h, w]),
        b >= 1,
        s >= 1,
        h >= 1,
        w >= 1,
        b * s * (h * w) <= usize::MAX,
    ensures
        has(t.reshape(seq![b, s, h * w]), seq![b, s, h * w]),
{
    products(b, s, h * w, 1, 1, 1);
    products(b, s, h, w, 1, 1);
    assert(h * w >= 1) by (nonlinear_arith)
        requires
            h >= 1,
            w >= 1,
    ;
    assert(b * s * h * w == b * s * (h * w)) by (nonlinear_arith);
    reshape_has(t, seq![b, s, h * w]);
}

/// Extents that are one stretch.
pub proof fn broadcast_to_has(t: Tensor, to: Seq<int>)
    requires
        !t.bad(),
        lies_under(t.dims, to),
    ensures
        has(t.broadcast_to(to), to),
{
    reveal(Tensor::broadcast_to);
    assert forall|i: int| 0 <= i < t.dims.len() implies stretches(
        #[trigger] t.dims[i],
        to[to.len() - t.dims.len() + i],
    ) by {
        assert(t.dims[i] == 1 || t.dims[i] == to[i]);
    }
}

pub broadcast proof fn narrow_has(t: Tensor, axis: int, start: int, len: int)
    requires
        !t.bad(),
        0 <= axis < t.dims.len(),
        start + len <= t.dims[axis],
    ensures
        !(#[trigger] t.narrow(axis, start, len)).bad(),
        t.narrow(axis, start, len).dims == t.dims.update(axis, len),
{
    reveal(Tensor::narrow);
}

pub broadcast proof fn chunk_has(t: Tensor, axis: int, n: int, i: int)
    requires
        !t.bad(),
        0 <= axis < t.dims.len(),
        n > 0,
        t.dims[axis] % n == 0,
    ensures
        !(#[trigger] t.chunk(axis, n, i)).bad(),
        t.chunk(axis, n, i).dims == t.dims.update(axis, t.dims[axis] / n),
{
    reveal(Tensor::chunk);
}

pub broadcast proof fn concat_has(a: Tensor, b: Tensor, axis: int)
    requires
        !a.bad(),
        !b.bad(),
        0 <= axis < a.dims.len(),
        a.dims.len() == b.dims.len(),
        a.dims.update(axis, 0) =~= b.dims.update(axis, 0),
        a.dims[axis] + b.dims[axis] <= usize::MAX,
    ensures
        !(#[trigger] a.concat(b, axis)).bad(),
        a.concat(b, axis).dims == a.dims.update(axis, a.dims[axis] + b.dims[axis]),
{
    reveal(Tensor::concat);
}

pub broadcast proof fn repeat_has(t: Tensor, axis: int, times: int)
    requires
        !t.bad(),
        0 <= axis < t.dims.len(),
        t.dims[axis] * times <= usize::MAX,
    ensures
        !(#[trigger] t.repeat_interleave(axis, times)).bad(),
        t.repeat_interleave(axis, times).dims == t.dims.update(axis, t.dims[axis] * times),
{
    reveal(Tensor::repeat_interleave);
}

pub broadcast proof fn pad_has(t: Tensor, axis: int, left: int, right: int)
    requires
        !t.bad(),
        0 <= axis < t.dims.len(),
        t.dims[axis] + left + right <= usize::MAX,
        left >= 0,
        right >= 0,
    ensures
        !(#[trigger] t.pad_with_zeros(axis, left, right)).bad(),
        t.pad_with_zeros(axis, left, right).dims == t.dims.update(axis, t.dims[axis] + left + right),
{
    reveal(Tensor::pad_with_zeros);
    assert(t.dims[axis] + left + right == left + t.dims[axis] + right);
}

pub broadcast proof fn mean_has(t: Tensor, axis: int)
    requires
        !t.bad(),
        0 <= axis < t.dims.len(),
    ensures
        !(#[trigger] t.mean_keepdim(axis)).bad(),
        t.mean_keepdim(axis).dims == t.dims.update(axis, 1),
{
    reveal(Tensor::mean_keepdim);
}

pub broadcast proof fn sum_has(t: Tensor, axis: int)
    requires
        !t.bad(),
        0 <= axis < t.dims.len(),
    ensures
        !(#[trigger] t.sum_dim(axis)).bad(),
        t.sum_dim(axis).dims == t.dims.remove(axis),
{
    reveal(Tensor::sum_dim);
}

pub broadcast proof fn argmin_has(t: Tensor, axis: int)
    requires
        !t.bad(),
        0 <= axis < t.dims.len(),
    ensures
        !(#[trigger] t.argmin_dim(axis)).bad(),
        t.argmin_dim(axis).dims == t.dims.remove(axis),
{
    reveal(Tensor::argmin_dim);
}

pub broadcast proof fn unsqueeze_has(t: Tensor, axis: int)
    requires
        !t.bad(),
        0 <= axis <= t.dims.len(),
    ensures
        !(#[trigger] t.unsqueeze(axis)).bad(),
        t.unsqueeze(axis).dims == t.dims.insert(axis, 1),
{
    reveal(Tensor::unsqueeze);
}

pub broadcast proof fn squeeze_has(t: Tensor, axis: int)
    requires
        !t.bad(),
        0 <= axis < t.dims.len(),
        t.dims[axis] == 1,
    ensures
        !(#[trigger] t.squeeze(axis)).bad(),
        t.squeeze(axis).dims == t.dims.remove(axis),
{
    reveal(Tensor::squeeze);
}

pub broadcast proof fn pool_has(t: Tensor)
    requires
        !t.bad(),
        t.dims.len() == 4,
    ensures
        !(#[trigger] t.global_avg_pool_2d()).bad(),
        t.global_avg_pool_2d().dims == seq![t.dims[0], t.dims[1]],
{
    reveal(Tensor::global_avg_pool_2d);
}

pub broadcast proof fn select_has(t: Tensor, axis: int, ids: Tensor)
    requires
        !t.bad(),
        !ids.bad(),
        0 <= axis < t.dims.len(),
        ids.dims.len() == 1,
    ensures
        !(#[trigger] t.index_select(axis, ids)).bad(),
        t.index_select(axis, ids).dims == t.dims.update(axis, ids.dims[0]),
{
    reveal(Tensor::index_select);
}

pub broadcast proof fn causal_mask_has(n: int)
    ensures
        !(#[trigger] Tensor::causal_mask(n)).bad(),
        Tensor::causal_mask(n).dims == seq![n, n],
{
    reveal(Tensor::causal_mask);
}

pub broadcast proof fn swap_has(t: Tensor, i: int, j: int)
    requires
        !t.bad(),
        0 <= i < t.dims.len(),
        0 <= j < t.dims.len(),
    ensures
        !(#[trigger] t.transpose_dims(i, j)).bad(),
        t.transpose_dims(i, j).dims == t.dims.update(i, t.dims[j]).update(j, t.dims[i]),
{
    reveal(Tensor::transpose_dims);
}

pub broadcast proof fn ids_have(data: Seq<u32>)
    ensures
        !(#[trigger] Tensor::ids(data)).bad(),
        Tensor::ids(data).dims == seq![data.len() as int],
{
    reveal(Tensor::ids);
}

/// Windows of a kernel over a padded signal.
pub proof fn conv1d_has(
    t: Tensor,
    w: Tensor,
    bias: Option<Tensor>,
    stride: int,
    pad: int,
    groups: int,
)
    requires
        !t.bad(),
        !w.bad(),
        t.dims.len() == 3,
        w.dims.len() == 3,
        bias matches Some(b) ==> has(b, seq![w.dims[0]]),
        grouped(t.dims[1], w.dims[1], w.dims[0], groups),
        has_windows(t.dims[2], w.dims[2], stride, pad),
    ensures
        has(
            t.conv1d(w, bias, stride, pad, groups),
            seq![t.dims[0], w.dims[0], windows(t.dims[2], w.dims[2], stride, pad)],
        ),
{
    reveal(Tensor::conv1d);
}

pub proof fn conv2d_has(t: Tensor, w: Tensor, stride: int, pad: int, groups: int)
    requires
        !t.bad(),
        !w.bad(),
        t.dims.len() == 4,
        w.dims.len() == 4,
        grouped(t.dims[1], w.dims[1], w.dims[0], groups),
        has_windows(t.dims[2], w.dims[2], stride, pad),
        has_windows(t.dims[3], w.dims[3], stride, pad),
    ensures
        has(
            t.conv2d(w, stride, pad, groups),
            seq![
                t.dims[0],
                w.dims[0],
                windows(t.dims[2], w.dims[2], stride, pad),
                windows(t.dims[3], w.dims[3], stride, pad),
            ],
        ),
{
    reveal(Tensor::conv2d);
}

pub proof fn conv_transpose1d_has(t: Tensor, w: Tensor, stride: int, groups: int)
    requires
        !t.bad(),
        !w.bad(),
        t.dims.len() == 3,
        w.dims.len() == 3,
        groups > 0,
        t.dims[1] == w.dims[0],
        t.dims[1] % groups == 0,
        t.dims[2] > 0,
        w.dims[2] > 0,
        stride > 0,
        w.dims[1] * groups <= usize::MAX,
        (t.dims[2] - 1) * stride + w.dims[2] <= usize::MAX,
    ensures
        has(
            t.conv_transpose1d(w, stride, groups),
            seq![t.dims[0], w.dims[1] * groups, (t.dims[2] - 1) * stride + w.dims[2]],
        ),
{
    reveal(Tensor::conv_transpose1d);
}

/// Positions that are left of `n` when every `stride`-th is kept.
pub open spec fn shrunk(n: int, stride: int) -> int {
    (n - 1) / stride + 1
}

/// A kernel of odd size `k`, padded by half of it, has one window for each kept
/// position.
pub proof fn odd_windows(n: int, k: int, stride: int)
    requires
        n >= 1,
        k >= 1,
        k % 2 == 1,
        stride >= 1,
        n + k <= usize::MAX,
    ensures
        has_windows(n, k, stride, k / 2),
        windows(n, k, stride, k / 2) == shrunk(n, stride),
        1 <= shrunk(n, stride) <= n,
{
    assert(n + 2 * (k / 2) - k == n - 1);
    assert(0 <= (n - 1) / stride <= n - 1) by (nonlinear_arith)
        requires
            n >= 1,
            stride >= 1,
    ;
}

/// A number for each channel, spread over a feature map.
pub proof fn per_channel_has(v: Seq<Scalar>, t: Tensor)
    requires
        !t.bad(),
        t.dims.len() == 4,
        t.dims[1] == v.len(),
        1 <= v.len() <= usize::MAX,
    ensures
        has(Tensor::per_channel(v), seq![1, v.len() as int, 1, 1]),
        lies_under(seq![1, v.len() as int, 1, 1], t.dims),
{
    let n = v.len() as int;
    products(n, 1, 1, 1, 1, 1);
    products(1, n, 1, 1, 1, 1);
    constant_has(v, seq![n]);
    reshape_has(Tensor::constant(v, seq![n]), seq![1, n, 1, 1]);
}

/// A gain and a bias for each channel keep the extents of a feature map.
pub proof fn channel_affine_keeps(t: Tensor, gain: Seq<Scalar>, bias: Seq<Scalar>)
    requires
        !t.bad(),
        t.dims.len() == 4,
        t.dims[1] == gain.len(),
        t.dims[1] == bias.len(),
        1 <= gain.len() <= usize::MAX,
    ensures
        has(t.channel_affine_4d(gain, bias), t.dims),
{
    per_channel_has(gain, t);
    broadcast_mul_under(t, Tensor::per_channel(gain));
    let y = t.broadcast_mul(Tensor::per_channel(gain));
    per_channel_has(bias, y);
    broadcast_add_under(y, Tensor::per_channel(bias));
}

pub broadcast proof fn causal_conv_has(t: Tensor, w: Tensor, b: Tensor, silu: bool)
    requires
        !t.bad(),
        !w.bad(),
        !b.bad(),
        t.dims.len() == 3,
        w.dims.len() == 3,
        w.dims[0] == t.dims[1],
        w.dims[1] == 1,
        1 <= w.dims[2] <= t.dims[2],
        b.dims =~= seq![t.dims[1]],
    ensures
        !(#[trigger] t.causal_conv1d(w, b, silu)).bad(),
        t.causal_conv1d(w, b, silu).dims == seq![t.dims[0], t.dims[1], t.dims[2] - w.dims[2] + 1],
{
    reveal(Tensor::causal_conv1d);
}

pub broadcast proof fn selective_scan_keeps(
    u: Tensor,
    delta: Tensor,
    a: Tensor,
    b: Tensor,
    c: Tensor,
    softplus: bool,
)
    requires
        !u.bad(),
        !delta.bad(),
        !a.bad(),
        !b.bad(),
        !c.bad(),
        u.dims.len() == 3,
        delta.dims =~= u.dims,
        a.dims.len() == 2,
        a.dims[0] == u.dims[2],
        b.dims =~= seq![u.dims[0], u.dims[1], a.dims[1]],
        c.dims =~= b.dims,
    ensures
        !(#[trigger] u.selective_scan(delta, a, b, c, softplus)).bad(),
        u.selective_scan(delta, a, b, c, softplus).dims == u.dims,
{
    reveal(Tensor::selective_scan);
}

pub proof fn ssd_chunk_scan_keeps(x: Tensor, dt: Tensor, a: Tensor, b: Tensor, c: Tensor, chunk: int)
    requires
        !x.bad(),
        !dt.bad(),
        !a.bad(),
        !b.bad(),
        !c.bad(),
        x.dims.len() == 4,
        dt.dims =~= seq![x.dims[0], x.dims[1], x.dims[2]],
        a.dims =~= seq![x.dims[2]],
        b.dims.len() == 4,
        b.dims =~= seq![x.dims[0], x.dims[1], x.dims[2], b.dims[3]],
        c.dims =~= b.dims,
        chunk > 0,
        x.dims[1] % chunk == 0,
    ensures
        has(x.ssd_chunk_scan(dt, a, b, c, chunk), x.dims),
{
    reveal(Tensor::ssd_chunk_scan);
}

pub proof fn lstm_has(x: Tensor, wi: Tensor, wh: Tensor, bi: Tensor, bh: Tensor, h: int)
    requires
        !x.bad(),
        x.dims.len() == 3,
        4 * h <= usize::MAX,
        has(wi, seq![4 * h, x.dims[2]]),
        has(wh, seq![4 * h, h]),
        has(bi, seq![4 * h]),
        has(bh, seq![4 * h]),
    ensures
        has(x.lstm(wi, wh, bi, bh, h), seq![x.dims[0], x.dims[1], h]),
{
    reveal(Tensor::lstm);
}

pub broadcast proof fn l2_normalize_keeps(t: Tensor, axis: int, eps: Scalar)
    requires
        !t.bad(),
        0 <= axis < t.dims.len(),
    ensures
        !(#[trigger] t.l2_normalize(axis, eps)).bad(),
        t.l2_normalize(axis, eps).dims == t.dims,
{
    reveal(Tensor::l2_normalize);
}

pub broadcast group extents {
    neg_keeps,
    exp_keeps,
    log_keeps,
    sqrt_keeps,
    sin_keeps,
    cos_keeps,
    silu_keeps,
    relu_keeps,
    gelu_keeps,
    gelu_erf_keeps,
    sigmoid_keeps,
    softmax_last_dim_keeps,
    elu_keeps,
    mul_scalar_keeps,
    add_scalar_keeps,
    layer_norm_last_dim_keeps,
    rms_norm_last_dim_keeps,
    add_keeps,
    sub_keeps,
    mul_keeps,
    div_keeps,
    broadcast_add_row,
    broadcast_sub_row,
    broadcast_mul_row,
    l2_normalize_keeps,
    causal_conv_has,
    selective_scan_keeps,
    narrow_has,
    chunk_has,
    concat_has,
    repeat_has,
    pad_has,
    mean_has,
    sum_has,
    argmin_has,
    unsqueeze_has,
    squeeze_has,
    pool_has,
    select_has,
    causal_mask_has,
    swap_has,
    ids_have,
    constant_row,
    linear_matrix,
    linear_tokens,
    matmul_heads,
    matmul_batches,
    matmul_matrices,
    matmul_shared,
    transpose_heads,
    permute_heads,
    permute_tokens,
    permute_front,
    permute_matrix,
    split_heads_has,
    merge_heads_has,
    rope_keeps,
    rope_tables_have,
}

} // verus!
