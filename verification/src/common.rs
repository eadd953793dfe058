//! Pieces that several models share.

use crate::checkpoint::{transpose_matrix, transposed};
use crate::error::Error;
use crate::extents::{broadcast_add_under, constant_has, extents, has, lies_under, products};
use crate::lazy::{LazyTensor, Tensor, Term, WeightStorage};
use crate::scalar::{neg_inf, zero, Data, Scalar};
use crate::shape::{fits, product};
use std::sync::Arc;
use vstd::prelude::*;

verus! {

/// Weights of a bias-free or biased decoder layer with grouped attention and a
/// gated feed-forward part.
#[derive(Debug, Clone)]
pub struct LayerWeights {
    pub attn_q: WeightStorage,
    pub attn_q_bias: Option<Data>,
    pub attn_k: WeightStorage,
    pub attn_k_bias: Option<Data>,
    pub attn_v: WeightStorage,
    pub attn_v_bias: Option<Data>,
    pub attn_o: WeightStorage,
    pub ffn_gate: WeightStorage,
    pub ffn_up: WeightStorage,
    pub ffn_down: WeightStorage,
    pub attn_norm_gain: Data,
    pub ffn_norm_gain: Data,
}

/// The output projection `[width, vocab]` that shares the numbers of an embedding
/// `[vocab, width]`; an embedding of another size stays as it is.
pub open spec fn tied_head(embedding: Seq<Scalar>, vocab: int, width: int) -> Seq<Scalar> {
    if embedding.len() == vocab * width {
        transposed(embedding, vocab, width)
    } else {
        embedding
    }
}

/// Builds the output projection that shares the numbers of an embedding.
pub fn tie_head(embedding: &Data, vocab: usize, width: usize) -> (r: Data)
    ensures
        r@ == tied_head(embedding@, vocab as int, width as int),
{
    let n: usize = embedding.len();
    match vocab.checked_mul(width) {
        None => embedding.clone(),
        Some(m) => if m == n {
            Arc::new(transpose_matrix(embedding, vocab, width))
        } else {
            embedding.clone()
        },
    }
}

/// The logits over a tied head are products with the rows of the embedding:
/// column `v` of the head is row `v` of the embedding.
pub proof fn tied_head_columns(embedding: Seq<Scalar>, vocab: int, width: int, j: int, v: int)
    requires
        embedding.len() == vocab * width,
        0 <= j < width,
        0 <= v < vocab,
    ensures
        0 <= j * vocab + v < vocab * width,
        tied_head(embedding, vocab, width)[j * vocab + v] == embedding[v * width + j],
{
    assert(0 <= j * vocab + v < vocab * width) by (nonlinear_arith)
        requires
            0 <= j < width,
            0 <= v < vocab,
    ;
    vstd::arithmetic::div_mod::lemma_fundamental_div_mod_converse(j * vocab + v, vocab, j, v);
}

/// Negative infinity where `hidden`, else zero.
pub open spec fn mask_value(hidden: bool) -> Scalar {
    if hidden {
        neg_inf()
    } else {
        zero()
    }
}

/// The additive mask that hides from row `i` every column beyond it; element
/// `(i, j)` stands at `i * seq + j`.
pub open spec fn causal_data(seq: int) -> Seq<Scalar> {
    Seq::new((seq * seq) as nat, |k: int| mask_value(k % seq > k / seq))
}

/// Row and column of a position in a square of `n` rows.
pub proof fn square_index(n: int, i: int, j: int)
    requires
        0 <= i < n,
        0 <= j < n,
    ensures
        0 <= i * n + j < n * n,
        (i * n + j) / n == i,
        (i * n + j) % n == j,
{
    assert(0 <= i * n + j < n * n) by (nonlinear_arith)
        requires
            0 <= i < n,
            0 <= j < n,
    ;
    vstd::arithmetic::div_mod::lemma_fundamental_div_mod_converse(i * n + j, n, i, j);
}

/// In a causal mask, row `i` sees column `j` exactly where `j <= i`.
pub proof fn causal_mask_rows(seq: int, i: int, j: int)
    requires
        0 <= i < seq,
        0 <= j < seq,
    ensures
        0 <= i * seq + j < causal_data(seq).len(),
        causal_data(seq)[i * seq + j] == mask_value(j > i),
{
    square_index(seq, i, j);
}

/// Elements of a causal mask.
pub fn build_causal_data(seq: usize) -> (r: Vec<Scalar>)
    requires
        seq * seq <= usize::MAX,
    ensures
        r@ == causal_data(seq as int),
{
    let n: usize = seq * seq;
    let mut out: Vec<Scalar> = Vec::new();
    let mut k: usize = 0;
    while k < n
        invariant
            k <= n == seq * seq,
            out@.len() == k,
            forall|m: int| 0 <= m < k ==> out@[m] == causal_data(seq as int)[m],
        decreases n - k,
    {
        assert(seq > 0) by (nonlinear_arith)
            requires
                seq * seq > 0,
                seq >= 0,
        ;
        out.push(
            if k % seq > k / seq {
                Scalar::F32(0xFF80_0000)
            } else {
                Scalar::F32(0)
            },
        );
        k = k + 1;
    }
    assert(out@ =~= causal_data(seq as int));
    out
}

/// The causal mask `(1, 1, seq, seq)`.
pub fn build_causal_mask(seq: usize) -> (r: LazyTensor)
    requires
        seq * seq <= usize::MAX,
    ensures
        r@ == causal_tensor(seq as int),
{
    LazyTensor::const4(&Arc::new(build_causal_data(seq)), 1, 1, seq, seq)
}

/// The causal mask `(1, 1, seq, seq)`.
pub open spec fn causal_tensor(seq: int) -> Tensor {
    Tensor::constant(causal_data(seq), seq![1, 1, seq, seq])
}

/// Attention of the queries `q` over the keys `k` and values `v`, all
/// `(batch, heads, seq, width)`: the scores are scaled and the mask is added
/// before the softmax.
pub open spec fn masked_attention(q: Tensor, k: Tensor, v: Tensor, scale: Scalar, mask: Tensor) -> Tensor {
    q.matmul(k.transpose()).mul_scalar(scale).broadcast_add(mask).softmax_last_dim().matmul(v)
}

/// Builds masked attention.
pub fn attend_masked(
    q: &LazyTensor,
    k: &LazyTensor,
    v: &LazyTensor,
    scale: &Scalar,
    mask: &LazyTensor,
) -> (r: LazyTensor)
    ensures
        r@ == masked_attention(q@, k@, v@, *scale, mask@),
{
    q.matmul(&k.transpose()).mul_scalar(scale).broadcast_add(mask).softmax_last_dim().matmul(v)
}

/// Attention without a mask.
pub open spec fn full_attention(q: Tensor, k: Tensor, v: Tensor, scale: Scalar) -> Tensor {
    q.matmul(k.transpose()).mul_scalar(scale).softmax_last_dim().matmul(v)
}

/// Builds attention without a mask.
pub fn attend_full(q: &LazyTensor, k: &LazyTensor, v: &LazyTensor, scale: &Scalar) -> (r: LazyTensor)
    ensures
        r@ == full_attention(q@, k@, v@, *scale),
{
    q.matmul(&k.transpose()).mul_scalar(scale).softmax_last_dim().matmul(v)
}

/// The gated feed-forward part `down(silu(gate(x)) * up(x))`.
pub open spec fn swiglu(
    x: Tensor,
    gate: Seq<Scalar>,
    up: Seq<Scalar>,
    down: Seq<Scalar>,
    width: int,
    inner: int,
) -> Tensor {
    x.linear(gate, width, inner).silu().mul(x.linear(up, width, inner)).linear(down, inner, width)
}

/// Builds the gated feed-forward part.
pub fn feed_swiglu(
    x: &LazyTensor,
    gate: &WeightStorage,
    up: &WeightStorage,
    down: &WeightStorage,
    width: usize,
    inner: usize,
) -> (r: LazyTensor)
    ensures
        r@ == swiglu(x@, gate@, up@, down@, width as int, inner as int),
{
    let g = gate.apply_linear(x, width, inner);
    let u = up.apply_linear(x, width, inner);
    down.apply_linear(&g.silu().mul(&u), inner, width)
}

/// Embeddings that could be built have one row for each token.
pub proof fn embedding_extents(table: Seq<Scalar>, vocab: int, width: int, tokens: Seq<u32>)
    ensures
        ({
            let e = Tensor::embed_tokens(table, vocab, width, tokens);
            if e.bad() {
                e.dims.len() == 0
            } else {
                e.dims == seq![1int, tokens.len() as int, width]
            }
        }),
{
    reveal(Tensor::constant);
    reveal(Tensor::ids);
    reveal(Tensor::index_select);
    reveal(Tensor::reshape);
}

/// Tensors of one shape put side by side along a new axis; nothing to stack is
/// a failure.
pub open spec fn stacked(ts: Seq<Tensor>, axis: int) -> Tensor
    decreases ts.len(),
{
    if ts.len() == 0 {
        Tensor::invalid(Error::Shape)
    } else if ts.len() == 1 {
        ts[0].unsqueeze(axis)
    } else {
        stacked(ts.drop_last(), axis).concat(ts.last().unsqueeze(axis), axis)
    }
}

/// The values of a list of expressions.
pub open spec fn views(ts: Seq<LazyTensor>) -> Seq<Tensor> {
    ts.map_values(|t: LazyTensor| t@)
}

/// Puts tensors side by side along a new axis.
pub fn stack(ts: &Vec<LazyTensor>, axis: usize) -> (r: LazyTensor)
    ensures
        r@ == stacked(views(ts@), axis as int),
{
    if ts.len() == 0 {
        return LazyTensor::invalid(Error::Shape);
    }
    let ghost v = views(ts@);
    let mut out = ts[0].unsqueeze(axis);
    let mut i: usize = 1;
    assert(v.take(1).len() == 1);
    while i < ts.len()
        invariant
            1 <= i <= ts@.len(),
            v == views(ts@),
            out@ == stacked(v.take(i as int), axis as int),
        decreases ts@.len() - i,
    {
        assert(v.take(i + 1).drop_last() =~= v.take(i as int));
        out = out.concat(&ts[i].unsqueeze(axis), axis);
        i = i + 1;
    }
    assert(v.take(ts@.len() as int) =~= v);
    out
}

/// A single extent is the number of elements.
pub proof fn one_extent(n: int)
    ensures
        product(seq![n]) == n,
{
    reveal_with_fuel(product, 2);
    assert(seq![n].drop_last() =~= Seq::<int>::empty());
    assert(1 * n == n);
}

/// Merges two extents into one axis.
pub fn reshape_merged1(x: &LazyTensor, a: usize, b: usize) -> (r: LazyTensor)
    ensures
        r@ == x@.reshape(seq![a * b]),
{
    match a.checked_mul(b) {
        Some(n) => x.reshape1(n),
        None => {
            proof {
                reveal(Tensor::reshape);
                one_extent(a * b);
            }
            refuse(x)
        },
    }
}

/// Merges the first two of three extents into one axis.
pub fn reshape_merged2(x: &LazyTensor, a: usize, b: usize, c: usize) -> (r: LazyTensor)
    ensures
        r@ == x@.reshape(seq![a * b, c as int]),
{
    match a.checked_mul(b) {
        Some(n) => x.reshape2(n, c),
        None => {
            proof {
                reveal(Tensor::reshape);
                one_extent(a * b);
                let to = seq![a * b, c as int];
                assert(to.drop_last() =~= seq![a * b]);
                assert(!fits(to.drop_last()));
                assert(!fits(to));
            }
            refuse(x)
        },
    }
}

/// An expression that failed for its shape, unless `x` failed before.
fn refuse(x: &LazyTensor) -> (r: LazyTensor)
    ensures
        r@ == (if x@.bad() {
            x@
        } else {
            Tensor::invalid(Error::Shape)
        }),
{
    if x.failure().is_some() {
        x.clone()
    } else {
        LazyTensor::invalid(Error::Shape)
    }
}

/// The failure of the first tensor that carries one.
pub open spec fn first_failure(ts: Seq<Tensor>) -> Option<Error>
    decreases ts.len(),
{
    if ts.len() == 0 {
        None
    } else if first_failure(ts.drop_last()) is Some {
        first_failure(ts.drop_last())
    } else {
        match ts.last().term {
            Term::Invalid(e) => Some(e),
            _ => None,
        }
    }
}

/// The failure of the first expression that carries one.
pub fn find_failure(ts: &Vec<LazyTensor>) -> (r: Option<Error>)
    ensures
        r == first_failure(views(ts@)),
{
    let ghost v = views(ts@);
    let mut found: Option<Error> = None;
    let mut i: usize = 0;
    assert(first_failure(v.take(0)) is None);
    while i < ts.len()
        invariant
            i <= ts@.len(),
            v == views(ts@),
            found == first_failure(v.take(i as int)),
        decreases ts@.len() - i,
    {
        assert(v.take(i + 1).drop_last() =~= v.take(i as int));
        if found.is_none() {
            found = ts[i].failure();
        }
        i = i + 1;
    }
    assert(v.take(ts@.len() as int) =~= v);
    found
}

/// Masked attention keeps the extents of the queries.
pub proof fn masked_attention_has(
    q: Tensor,
    k: Tensor,
    v: Tensor,
    scale: Scalar,
    mask: Tensor,
    b: int,
    h: int,
    s: int,
    w: int,
)
    requires
        has(q, seq![b, h, s, w]),
        has(k, seq![b, h, s, w]),
        has(v, seq![b, h, s, w]),
        !mask.bad(),
        lies_under(mask.dims, seq![b, h, s, s]),
    ensures
        has(masked_attention(q, k, v, scale, mask), seq![b, h, s, w]),
{
    broadcast use extents;

    broadcast_add_under(q.matmul(k.transpose()).mul_scalar(scale), mask);
}

/// The gated feed-forward part keeps the extents of its operand.
pub proof fn swiglu_has(
    x: Tensor,
    gate: Seq<Scalar>,
    up: Seq<Scalar>,
    down: Seq<Scalar>,
    width: int,
    inner: int,
    b: int,
    s: int,
)
    requires
        has(x, seq![b, s, width]),
        width >= 1,
        inner >= 1,
        width * inner <= usize::MAX,
        gate.len() == width * inner,
        up.len() == width * inner,
        down.len() == inner * width,
    ensures
        has(swiglu(x, gate, up, down, width, inner), seq![b, s, width]),
{
    broadcast use extents;

    assert(inner * width == width * inner) by (nonlinear_arith);
}

/// A square mask lies under the scores of all heads.
pub proof fn mask_has(data: Seq<Scalar>, s: int, b: int, h: int)
    requires
        s >= 1,
        s * s <= usize::MAX,
        data.len() == s * s,
    ensures
        has(Tensor::constant(data, seq![1, 1, s, s]), seq![1, 1, s, s]),
        lies_under(seq![1, 1, s, s], seq![b, h, s, s]),
{
    products(1, 1, s, s, 1, 1);
    assert(1 * 1 * s * s == s * s) by (nonlinear_arith);
    constant_has(data, seq![1, 1, s, s]);
}

impl LayerWeights {
    /// The weights have the declared sizes: `h` is the model width, `kv` that of
    /// the keys, `inner` that inside the feed-forward part.
    pub open spec fn sized(&self, h: int, kv: int, inner: int) -> bool {
        &&& self.attn_q@.len() == h * h
        &&& self.attn_k@.len() == h * kv
        &&& self.attn_v@.len() == h * kv
        &&& self.attn_o@.len() == h * h
        &&& self.ffn_gate@.len() == h * inner
        &&& self.ffn_up@.len() == h * inner
        &&& self.ffn_down@.len() == inner * h
        &&& self.attn_norm_gain@.len() == h
        &&& self.ffn_norm_gain@.len() == h
    }
}

/// Where `m` key heads share `n` query heads of width `d` evenly, there are no
/// more key heads than query heads.
pub proof fn heads_are_shared(n: int, m: int, d: int)
    requires
        n * d >= 1,
        n >= 0,
        m >= 1,
        d >= 1,
        n % m == 0,
    ensures
        1 <= m <= n,
        1 <= m * d <= n * d,
        n / m >= 1,
        m * (n / m) == n,
{
    assert(n >= 1) by (nonlinear_arith)
        requires
            n * d >= 1,
            n >= 0,
            d >= 1,
    ;
    vstd::arithmetic::div_mod::lemma_fundamental_div_mod(n, m);
    assert(n / m >= 1) by (nonlinear_arith)
        requires
            n == m * (n / m),
            n >= 1,
            m >= 1,
    ;
    assert(m <= n) by (nonlinear_arith)
        requires
            n == m * (n / m),
            n / m >= 1,
            m >= 1,
    ;
    assert(1 <= m * d <= n * d) by (nonlinear_arith)
        requires
            1 <= m <= n,
            d >= 1,
    ;
}

/// Whether two runs had the same outcome.
pub open spec fn agree(a: Result<LazyTensor, Error>, b: Result<LazyTensor, Error>) -> bool {
    match (a, b) {
        (Ok(x), Ok(y)) => x@ == y@,
        (Err(e), Err(f)) => e == f,
        _ => false,
    }
}

/// Rows put side by side along a new second axis.
pub proof fn stacked_has(ts: Seq<Tensor>, n: int)
    requires
        1 <= ts.len() <= usize::MAX,
        forall|i: int| 0 <= i < ts.len() ==> has(#[trigger] ts[i], seq![1, n]),
    ensures
        has(stacked(ts, 1), seq![1, ts.len() as int, n]),
    decreases ts.len(),
{
    broadcast use extents;

    let k = ts.len() as int;
    let last = ts[k - 1].unsqueeze(1);
    assert(last.dims =~= seq![1, 1, n]);
    if k > 1 {
        let front = ts.drop_last();
        assert forall|i: int| 0 <= i < front.len() implies has(#[trigger] front[i], seq![1, n]) by {
            assert(front[i] == ts[i]);
        }
        stacked_has(front, n);
        let a = stacked(front, 1);
        assert(a.dims.update(1, 0) =~= last.dims.update(1, 0));
        assert(a.concat(last, 1).dims =~= seq![1, k, n]);
    }
}

/// Attention without a mask has the extents of the queries.
pub proof fn full_attention_has(q: Tensor, k: Tensor, v: Tensor, scale: Scalar, b: int, h: int, s: int, w: int)
    requires
        has(q, seq![b, h, s, w]),
        has(k, seq![b, h, s, w]),
        has(v, seq![b, h, s, w]),
    ensures
        has(full_attention(q, k, v, scale), seq![b, h, s, w]),
{
    broadcast use extents;

}

} // verus!
