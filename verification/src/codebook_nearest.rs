//! A code is the index of a nearest row of the codebook.
//!
//! Elements are read as real numbers: sums and products are those of the reals,
//! and rounding does not count. The scores that a codebook compares differ from
//! half the squared distances by half the squared length of the vector alone, so
//! a least score is at a least distance.

use crate::checkpoint::Checkpoint;
use crate::error::Fault;
use crate::evaluation::{inside, place, rearranges, Element};
use crate::extents::{broadcast_to_has, constant_has, extents, has, products, reshape_has};
use crate::lazy::Tensor;
use crate::lazy_mimi_quantization::{half_squares, EuclideanCodebookWeights};
use crate::lazy_mimi_seanet::sum_squares64;
use crate::scalar::{add64, cast, div64, mul64, Precision, Scalar};
use vstd::prelude::*;

verus! {

/// The element in row `i` and column `j` of a matrix.
pub open spec fn entry(value: Element<real>, t: Tensor, i: int, j: int) -> real {
    value(t, seq![i, j])
}

/// The sum of the products of row `i` of `x` and column `j` of `y`, over the
/// first `n` elements.
pub open spec fn dot(value: Element<real>, x: Tensor, i: int, y: Tensor, j: int, n: int) -> real
    decreases n,
{
    if n <= 0 {
        0real
    } else {
        dot(value, x, i, y, j, n - 1) + entry(value, x, i, n - 1) * entry(value, y, n - 1, j)
    }
}

/// The squared length of row `i` of `x`, over the first `n` elements.
pub open spec fn squared_length(value: Element<real>, x: Tensor, i: int, n: int) -> real
    decreases n,
{
    if n <= 0 {
        0real
    } else {
        squared_length(value, x, i, n - 1) + entry(value, x, i, n - 1) * entry(value, x, i, n - 1)
    }
}

/// The squared distance of row `i` of `x` and row `r` of `y`, over the first `n`
/// elements.
pub open spec fn squared_distance(value: Element<real>, x: Tensor, i: int, y: Tensor, r: int, n: int) -> real
    decreases n,
{
    if n <= 0 {
        0real
    } else {
        let d = entry(value, x, i, n - 1) - entry(value, y, r, n - 1);
        squared_distance(value, x, i, y, r, n - 1) + d * d
    }
}

/// Elements are real numbers: a difference is taken element by element, a product
/// of matrices sums the products of a row and a column, and repeating a row
/// repeats its elements.
pub open spec fn computes(value: Element<real>) -> bool {
    &&& rearranges(value)
    &&& forall|t: Tensor, u: Tensor, p: Seq<int>|
        !t.sub(u).bad() && inside(p, t.dims) ==> #[trigger] value(t.sub(u), p) == value(t, p) - value(u, p)
    &&& forall|t: Tensor, u: Tensor, i: int, j: int|
        !t.matmul(u).bad() && t.rank() == 2 && u.rank() == 2 && 0 <= i < t.dims[0] && 0 <= j < u.dims[1]
            ==> #[trigger] entry(value, t.matmul(u), i, j) == dot(value, t, i, u, j, t.dims[1])
    &&& forall|t: Tensor, d: Seq<int>, i: int, j: int|
        !t.broadcast_to(d).bad() && d.len() == 2 && t.dims == d.update(0, 1) && 0 <= i < d[0] && 0 <= j < d[1]
            ==> #[trigger] entry(value, t.broadcast_to(d), i, j) == entry(value, t, 0, j)
}

/// The position `r` that is picked in row `i` of `t` holds a least element.
pub open spec fn is_least(value: Element<real>, t: Tensor, i: int, r: int) -> bool {
    &&& 0 <= r < t.dims[1]
    &&& forall|j: int| 0 <= j < t.dims[1] ==> entry(value, t, i, r) <= #[trigger] entry(value, t, i, j)
}

/// The index of a least element is picked in each row.
pub open spec fn picks_least(value: Element<real>, pick: Element<int>) -> bool {
    forall|t: Tensor, i: int|
        !t.argmin_dim(1).bad() && t.rank() == 2 && 0 <= i < t.dims[0] && t.dims[1] >= 1 ==> is_least(
            value,
            t,
            i,
            #[trigger] pick(t.argmin_dim(1), seq![i]),
        )
}

impl EuclideanCodebookWeights {
    /// Every weight has the declared size.
    pub open spec fn sized(&self) -> bool {
        let n = self.codebook_size as int;
        let d = self.codebook_dim as int;
        &&& n >= 1
        &&& d >= 1
        &&& n * d <= usize::MAX
        &&& self.embedding@.len() == n * d
        &&& self.c2@.len() == n
    }

    /// The number that is held for row `r`.
    pub open spec fn held(&self, value: Element<real>, r: int) -> real {
        value(Tensor::constant(self.c2@, seq![self.codebook_size as int]), seq![r])
    }

    /// What is held for each row is half its squared length.
    pub open spec fn holds_half_squares(&self, value: Element<real>) -> bool {
        forall|r: int|
            0 <= r < self.codebook_size ==> #[trigger] self.held(value, r) + self.held(value, r)
                == squared_length(value, self.rows(), r, self.codebook_dim as int)
    }

    /// Row `r` is a nearest one to row `i` of `x`.
    pub open spec fn is_nearest(&self, value: Element<real>, x: Tensor, i: int, r: int) -> bool {
        let d = self.codebook_dim as int;
        &&& 0 <= r < self.codebook_size
        &&& forall|o: int|
            0 <= o < self.codebook_size ==> squared_distance(value, x, i, self.rows(), r, d)
                <= #[trigger] squared_distance(value, x, i, self.rows(), o, d)
    }
}

/// The square of a difference.
proof fn difference_squared(a: real, b: real, l: real, m: real, p: real)
    ensures
        l + m - p - p + (a - b) * (a - b) == (l + a * a) + (m + b * b) - (p + a * b) - (p + a * b),
{
    assert((a - b) * (a - b) == a * a + b * b - a * b - a * b) by (nonlinear_arith);
}

/// The squared distance of two rows is the sum of their squared lengths less
/// twice their product.
proof fn distance_expands(value: Element<real>, x: Tensor, i: int, y: Tensor, r: int, turned: Tensor, n: int)
    requires
        forall|k: int| 0 <= k < n ==> #[trigger] entry(value, turned, k, r) == entry(value, y, r, k),
    ensures
        squared_distance(value, x, i, y, r, n) == squared_length(value, x, i, n) + squared_length(
            value,
            y,
            r,
            n,
        ) - dot(value, x, i, turned, r, n) - dot(value, x, i, turned, r, n),
    decreases n,
{
    if n > 0 {
        distance_expands(value, x, i, y, r, turned, n - 1);
        let a = entry(value, x, i, n - 1);
        let b = entry(value, y, r, n - 1);
        assert(entry(value, turned, n - 1, r) == b);
        difference_squared(
            a,
            b,
            squared_length(value, x, i, n - 1),
            squared_length(value, y, r, n - 1),
            dot(value, x, i, turned, r, n - 1),
        );
    }
}

/// The scores of vectors `(m, codebook_dim)` are `(m, codebook_size)`, and the
/// codes are one for each vector.
proof fn scores_have(cb: &EuclideanCodebookWeights, x: Tensor, m: int)
    requires
        cb.sized(),
        m >= 1,
        has(x, seq![m, cb.codebook_dim as int]),
    ensures
        ({
            let n = cb.codebook_size as int;
            let d = cb.codebook_dim as int;
            let c2 = Tensor::constant(cb.c2@, seq![n]);
            let line = c2.reshape(seq![1, n]);
            let turned = cb.rows().permute(seq![1, 0]);
            &&& has(cb.rows(), seq![n, d])
            &&& has(turned, seq![d, n])
            &&& has(x.matmul(turned), seq![m, n])
            &&& has(c2, seq![n])
            &&& has(line, seq![1, n])
            &&& has(line.broadcast_to(seq![m, n]), seq![m, n])
            &&& has(cb.scores(x), seq![m, n])
            &&& has(cb.encoded(x), seq![m])
        }),
{
    broadcast use extents;

    let n = cb.codebook_size as int;
    let d = cb.codebook_dim as int;
    products(n, d, 1, 1, 1, 1);
    constant_has(cb.embedding@, seq![n, d]);
    products(n, 1, 1, 1, 1, 1);
    products(1, n, 1, 1, 1, 1);
    constant_has(cb.c2@, seq![n]);
    let turned = cb.rows().permute(seq![1, 0]);
    assert(has(turned, seq![d, n]));
    assert(has(x.matmul(turned), seq![m, n]));
    let c2 = Tensor::constant(cb.c2@, seq![n]);
    reshape_has(c2, seq![1, n]);
    broadcast_to_has(c2.reshape(seq![1, n]), seq![m, n]);
    assert(has(cb.scores(x), seq![m, n]));
    assert(cb.encoded(x).dims =~= seq![m]);
}

/// Twice a score is the squared distance less the squared length of the vector.
proof fn score_is_distance(
    value: Element<real>,
    cb: &EuclideanCodebookWeights,
    x: Tensor,
    m: int,
    i: int,
    r: int,
)
    requires
        computes(value),
        cb.sized(),
        cb.holds_half_squares(value),
        has(x, seq![m, cb.codebook_dim as int]),
        0 <= i < m,
        0 <= r < cb.codebook_size,
    ensures
        ({
            let d = cb.codebook_dim as int;
            let score = entry(value, cb.scores(x), i, r);
            score + score == squared_distance(value, x, i, cb.rows(), r, d) - squared_length(value, x, i, d)
        }),
{
    let n = cb.codebook_size as int;
    let d = cb.codebook_dim as int;
    scores_have(cb, x, m);
    let rows = cb.rows();
    let turned = rows.permute(seq![1, 0]);
    assert forall|k: int| 0 <= k < d implies #[trigger] entry(value, turned, k, r) == entry(value, rows, r, k) by {
        let from = seq![r, k];
        let to = seq![k, r];
        let ax = seq![1int, 0];
        assert forall|a: int| 0 <= a < to.len() implies #[trigger] to[a] == from[ax[a]] by {
            assert(a == 0 || a == 1);
        }
        assert(inside(from, rows.dims));
        assert(value(rows.permute(ax), to) == value(rows, from));
    }
    distance_expands(value, x, i, rows, r, turned, d);
    let c2 = Tensor::constant(cb.c2@, seq![n]);
    let line = c2.reshape(seq![1, n]);
    let wide = line.broadcast_to(seq![m, n]);
    assert(line.dims =~= seq![m, n].update(0, 1));
    assert(entry(value, wide, i, r) == entry(value, line, 0, r));
    assert(place(seq![r], seq![n]) == place(seq![0, r], seq![1, n])) by {
        reveal_with_fuel(place, 3);
        assert(seq![r].drop_last() =~= Seq::<int>::empty());
        assert(seq![0, r].drop_last() =~= seq![0int]);
        assert(seq![0int].drop_last() =~= Seq::<int>::empty());
        assert(seq![1, n].drop_last() =~= seq![1int]);
    }
    assert(inside(seq![r], c2.dims));
    assert(inside(seq![0, r], seq![1, n]));
    assert(entry(value, line, 0, r) == value(c2, seq![r]));
    assert(value(c2, seq![r]) == cb.held(value, r));
    let dots = x.matmul(turned);
    assert(entry(value, dots, i, r) == dot(value, x, i, turned, r, d));
    assert(inside(seq![i, r], wide.dims));
    assert(cb.scores(x) == wide.sub(dots));
}

/// The code of a vector is the index of a nearest row: no row of the codebook is
/// at a smaller distance. This holds of any codebook whose `c2` are half the
/// squared lengths of its rows.
pub proof fn encoding_picks_a_nearest_row(
    value: Element<real>,
    pick: Element<int>,
    cb: &EuclideanCodebookWeights,
    x: Tensor,
    m: int,
    i: int,
)
    requires
        computes(value),
        picks_least(value, pick),
        cb.sized(),
        cb.holds_half_squares(value),
        has(x, seq![m, cb.codebook_dim as int]),
        0 <= i < m,
    ensures
        cb.is_nearest(value, x, i, pick(cb.encoded(x), seq![i])),
{
    let d = cb.codebook_dim as int;
    scores_have(cb, x, m);
    let scores = cb.scores(x);
    let r = pick(scores.argmin_dim(1), seq![i]);
    assert(is_least(value, scores, i, r));
    score_is_distance(value, cb, x, m, i, r);
    assert forall|o: int| 0 <= o < cb.codebook_size implies squared_distance(value, x, i, cb.rows(), r, d)
        <= #[trigger] squared_distance(value, x, i, cb.rows(), o, d) by {
        score_is_distance(value, cb, x, m, i, o);
        assert(entry(value, scores, i, r) <= entry(value, scores, i, o));
    }
}

/// Scalars are real numbers: rounding does not change them, and sums, products
/// and halves are those of the reals.
pub open spec fn exact(number: spec_fn(Scalar) -> real) -> bool {
    &&& number(Scalar::F64(0)) == 0real
    &&& forall|p: Precision, a: Scalar| #[trigger] number(cast(p, a)) == number(a)
    &&& forall|a: Scalar, b: Scalar| #[trigger] number(add64(a, b)) == number(a) + number(b)
    &&& forall|a: Scalar, b: Scalar| #[trigger] number(mul64(a, b)) == number(a) * number(b)
    &&& forall|a: Scalar|
        #![trigger number(div64(a, Scalar::F64(0x4000_0000_0000_0000)))]
        number(div64(a, Scalar::F64(0x4000_0000_0000_0000))) + number(
            div64(a, Scalar::F64(0x4000_0000_0000_0000)),
        ) == number(a)
}

/// The elements of a constant are the numbers that were given, in row-major
/// order.
pub open spec fn reads_constants(value: Element<real>, number: spec_fn(Scalar) -> real) -> bool {
    forall|data: Seq<Scalar>, d: Seq<int>, p: Seq<int>|
        !Tensor::constant(data, d).bad() && inside(p, d) ==> #[trigger] value(Tensor::constant(data, d), p)
            == number(data[place(p, d)])
}

/// The sum of the squares of a row is its squared length.
proof fn squares_sum_up(
    value: Element<real>,
    number: spec_fn(Scalar) -> real,
    data: Seq<Scalar>,
    size: int,
    width: int,
    r: int,
    n: int,
)
    requires
        exact(number),
        reads_constants(value, number),
        has(Tensor::constant(data, seq![size, width]), seq![size, width]),
        0 <= r < size,
        n <= width,
    ensures
        number(sum_squares64(data, r * width, n)) == squared_length(
            value,
            Tensor::constant(data, seq![size, width]),
            r,
            n,
        ),
    decreases n,
{
    if n > 0 {
        squares_sum_up(value, number, data, size, width, r, n - 1);
        let p = seq![r, n - 1];
        let d = seq![size, width];
        assert(place(p, d) == r * width + (n - 1)) by {
            reveal_with_fuel(place, 3);
            assert(p.drop_last() =~= seq![r]);
            assert(d.drop_last() =~= seq![size]);
            assert(seq![r].drop_last() =~= Seq::<int>::empty());
        }
        assert(inside(p, d));
        let e = data[r * width + n - 1];
        assert(value(Tensor::constant(data, d), p) == number(e));
        assert(number(cast(Precision::Double, e)) == number(e));
    }
}

/// A codebook that was loaded holds half the squared length of each of its rows.
pub proof fn loaded_codebook_holds_half_squares(
    value: Element<real>,
    number: spec_fn(Scalar) -> real,
    cb: &EuclideanCodebookWeights,
    st: &Checkpoint,
    e: Option<Fault>,
    p: Seq<char>,
)
    requires
        exact(number),
        reads_constants(value, number),
        cb.codebook_size >= 1,
        cb.codebook_dim >= 1,
        cb.codebook_size * cb.codebook_dim <= usize::MAX,
        EuclideanCodebookWeights::need(st, e, p, cb.codebook_size as int, cb.codebook_dim as int) is None,
        cb.loaded(st, p, cb.codebook_size as int, cb.codebook_dim as int),
    ensures
        cb.sized(),
        cb.holds_half_squares(value),
{
    broadcast use extents;

    let n = cb.codebook_size as int;
    let d = cb.codebook_dim as int;
    assert(cb.embedding@.len() == n * d);
    assert(cb.c2@.len() == n);
    products(n, d, 1, 1, 1, 1);
    constant_has(cb.embedding@, seq![n, d]);
    products(n, 1, 1, 1, 1, 1);
    constant_has(cb.c2@, seq![n]);
    assert forall|r: int| 0 <= r < n implies #[trigger] cb.held(value, r) + cb.held(value, r)
        == squared_length(value, cb.rows(), r, d) by {
        squares_sum_up(value, number, cb.embedding@, n, d, r, d);
        assert(place(seq![r], seq![n]) == r) by {
            reveal_with_fuel(place, 2);
            assert(seq![r].drop_last() =~= Seq::<int>::empty());
        }
        assert(inside(seq![r], seq![n]));
        assert(cb.c2@[r] == half_squares(cb.embedding@, n, d)[r]);
    }
}

/// Codes under a codebook that was loaded are indices of nearest rows.
pub proof fn loaded_codebook_encodes_nearest(
    value: Element<real>,
    number: spec_fn(Scalar) -> real,
    pick: Element<int>,
    cb: &EuclideanCodebookWeights,
    st: &Checkpoint,
    e: Option<Fault>,
    p: Seq<char>,
    x: Tensor,
    m: int,
    i: int,
)
    requires
        computes(value),
        picks_least(value, pick),
        exact(number),
        reads_constants(value, number),
        cb.codebook_size >= 1,
        cb.codebook_dim >= 1,
        cb.codebook_size * cb.codebook_dim <= usize::MAX,
        EuclideanCodebookWeights::need(st, e, p, cb.codebook_size as int, cb.codebook_dim as int) is None,
        cb.loaded(st, p, cb.codebook_size as int, cb.codebook_dim as int),
        has(x, seq![m, cb.codebook_dim as int]),
        0 <= i < m,
    ensures
        cb.is_nearest(value, x, i, pick(cb.encoded(x), seq![i])),
{
    loaded_codebook_holds_half_squares(value, number, cb, st, e, p);
    encoding_picks_a_nearest_row(value, pick, cb, x, m, i);
}

} // verus!
