//! The numbers that each operation yields, in terms of those of its operands.

use crate::evaluation::{inside, place};
use crate::lazy::{Op, Tensor, Term};
use crate::meaning::{
    angle, at, at1, bin_elements, at2, at3, at4, decoded, elements, first_least, larger, low4, lows, number, or_zero, row3, row4, scaled, share,
    sigmoid, silu, slot, standard, sum, under, unit_square, unpermuted, unplaced, Functions, Row,
};
use crate::scalar::{inv_sqrt64, neg_inf, zero, Scalar};
use vstd::prelude::*;

verus! {

/// Sums of equal numbers are equal.
pub proof fn sums_alike(n: int, g: Row, h: Row)
    requires
        forall|k: int| 0 <= k < n ==> #[trigger] g(k) == h(k),
    ensures
        sum(n, g) == sum(n, h),
    decreases n,
{
    if n > 0 {
        sums_alike(n - 1, g, h);
        assert(g(n - 1) == h(n - 1));
    }
}

/// Feature `j` of a row mapped by the matrix `w (n, o)`.
pub open spec fn mapped(f: Functions, x: Row, w: Seq<Scalar>, n: int, o: int, j: int) -> real {
    sum(n, |k: int| x(k) * number(f, w[k * o + j]))
}

/// Equal rows are mapped alike.
pub proof fn mapped_alike(f: Functions, x: Row, y: Row, w: Seq<Scalar>, n: int, o: int, j: int)
    requires
        forall|k: int| 0 <= k < n ==> #[trigger] x(k) == y(k),
    ensures
        mapped(f, x, w, n, o, j) == mapped(f, y, w, n, o, j),
{
    sums_alike(n, |k: int| x(k) * number(f, w[k * o + j]), |k: int| y(k) * number(f, w[k * o + j]));
}

pub broadcast proof fn read_neg(f: Functions, t: Tensor, i: Seq<int>)
    requires
        !t.bad(),
    ensures
        #[trigger] at(f, t.neg(), i) == -at(f, t, i),
{
    reveal(Tensor::neg);
    reveal(elements);
}

pub broadcast proof fn read_exp(f: Functions, t: Tensor, i: Seq<int>)
    requires
        !t.bad(),
    ensures
        #[trigger] at(f, t.exp(), i) == (f.exp)(at(f, t, i)),
{
    reveal(Tensor::exp);
    reveal(elements);
}

pub broadcast proof fn read_silu(f: Functions, t: Tensor, i: Seq<int>)
    requires
        !t.bad(),
    ensures
        #[trigger] at(f, t.silu(), i) == silu(f, at(f, t, i)),
{
    reveal(Tensor::silu);
    reveal(elements);
}

pub broadcast proof fn read_relu(f: Functions, t: Tensor, i: Seq<int>)
    requires
        !t.bad(),
    ensures
        #[trigger] at(f, t.relu(), i) == larger(at(f, t, i), 0real),
{
    reveal(Tensor::relu);
    reveal(elements);
}

pub broadcast proof fn read_gelu(f: Functions, t: Tensor, i: Seq<int>)
    requires
        !t.bad(),
    ensures
        #[trigger] at(f, t.gelu(), i) == (f.gelu)(at(f, t, i)),
{
    reveal(Tensor::gelu);
    reveal(elements);
}

pub broadcast proof fn read_gelu_erf(f: Functions, t: Tensor, i: Seq<int>)
    requires
        !t.bad(),
    ensures
        #[trigger] at(f, t.gelu_erf(), i) == (f.gelu_erf)(at(f, t, i)),
{
    reveal(Tensor::gelu_erf);
    reveal(elements);
}

pub broadcast proof fn read_sigmoid(f: Functions, t: Tensor, i: Seq<int>)
    requires
        !t.bad(),
    ensures
        #[trigger] at(f, t.sigmoid(), i) == sigmoid(f, at(f, t, i)),
{
    reveal(Tensor::sigmoid);
    reveal(elements);
}

pub broadcast proof fn read_sin(f: Functions, t: Tensor, i: Seq<int>)
    requires
        !t.bad(),
    ensures
        #[trigger] at(f, t.sin(), i) == (f.sin)(at(f, t, i)),
{
    reveal(Tensor::sin);
    reveal(elements);
}

pub broadcast proof fn read_cos(f: Functions, t: Tensor, i: Seq<int>)
    requires
        !t.bad(),
    ensures
        #[trigger] at(f, t.cos(), i) == (f.cos)(at(f, t, i)),
{
    reveal(Tensor::cos);
    reveal(elements);
}

pub broadcast proof fn read_elu(f: Functions, t: Tensor, s: Scalar, i: Seq<int>)
    requires
        !t.bad(),
    ensures
        #[trigger] at(f, t.elu(s), i) == (if at(f, t, i) > 0real {
            at(f, t, i)
        } else {
            number(f, s) * ((f.exp)(at(f, t, i)) - 1real)
        }),
{
    reveal(Tensor::elu);
    reveal(elements);
}

pub broadcast proof fn read_mul_scalar(f: Functions, t: Tensor, s: Scalar, i: Seq<int>)
    requires
        !t.bad(),
    ensures
        #[trigger] at(f, t.mul_scalar(s), i) == at(f, t, i) * number(f, s),
{
    reveal(Tensor::mul_scalar);
    reveal(elements);
}

pub broadcast proof fn read_add_scalar(f: Functions, t: Tensor, s: Scalar, i: Seq<int>)
    requires
        !t.bad(),
    ensures
        #[trigger] at(f, t.add_scalar(s), i) == at(f, t, i) + number(f, s),
{
    reveal(Tensor::add_scalar);
    reveal(elements);
}

pub broadcast proof fn read_add(f: Functions, t: Tensor, u: Tensor, i: Seq<int>)
    requires
        !t.add(u).bad(),
    ensures
        #[trigger] at(f, t.add(u), i) == at(f, t, i) + at(f, u, i),
{
    reveal(Tensor::add);
    reveal(elements);
}

pub broadcast proof fn read_sub(f: Functions, t: Tensor, u: Tensor, i: Seq<int>)
    requires
        !t.sub(u).bad(),
    ensures
        #[trigger] at(f, t.sub(u), i) == at(f, t, i) - at(f, u, i),
{
    reveal(Tensor::sub);
    reveal(elements);
}

pub broadcast proof fn read_mul(f: Functions, t: Tensor, u: Tensor, i: Seq<int>)
    requires
        !t.mul(u).bad(),
    ensures
        #[trigger] at(f, t.mul(u), i) == at(f, t, i) * at(f, u, i),
{
    reveal(Tensor::mul);
    reveal(elements);
}

/// Indices within the extents are stretched from themselves.
pub proof fn under_same(i: Seq<int>, d: Seq<int>)
    requires
        inside(i, d),
    ensures
        under(i, d) == i,
{
    assert forall|k: int| 0 <= k < d.len() implies under(i, d)[k] == i[k] by {
        assert(0 <= i[k] < d[k]);
    }
    assert(under(i, d) =~= i);
}

/// The place of the element of a matrix.
pub proof fn place2(a: int, b: int, m: int, n: int)
    ensures
        place(seq![a, b], seq![m, n]) == a * n + b,
{
    reveal_with_fuel(place, 3);
    assert(seq![a, b].drop_last() =~= seq![a]);
    assert(seq![m, n].drop_last() =~= seq![m]);
    assert(seq![a].drop_last() =~= Seq::<int>::empty());
    assert(seq![m].drop_last() =~= Seq::<int>::empty());
}

pub proof fn place1(a: int, m: int)
    ensures
        place(seq![a], seq![m]) == a,
{
    reveal_with_fuel(place, 2);
    assert(seq![a].drop_last() =~= Seq::<int>::empty());
}

pub proof fn place3(a: int, b: int, c: int, l: int, m: int, n: int)
    ensures
        place(seq![a, b, c], seq![l, m, n]) == (a * m + b) * n + c,
{
    reveal_with_fuel(place, 2);
    place2(a, b, l, m);
    assert(seq![a, b, c].drop_last() =~= seq![a, b]);
    assert(seq![l, m, n].drop_last() =~= seq![l, m]);
}

pub proof fn place4(a: int, b: int, c: int, d: int, k: int, l: int, m: int, n: int)
    ensures
        place(seq![a, b, c, d], seq![k, l, m, n]) == ((a * l + b) * m + c) * n + d,
{
    reveal_with_fuel(place, 2);
    place3(a, b, c, k, l, m);
    assert(seq![a, b, c, d].drop_last() =~= seq![a, b, c]);
    assert(seq![k, l, m, n].drop_last() =~= seq![k, l, m]);
}

/// The element of a constant.
pub proof fn read_constant(f: Functions, data: Seq<Scalar>, d: Seq<int>, i: Seq<int>)
    requires
        !Tensor::constant(data, d).bad(),
    ensures
        at(f, Tensor::constant(data, d), i) == number(f, data[place(i, d)]),
        lows(Tensor::constant(data, d))(i) == (data[place(i, d)] == neg_inf()),
{
    reveal(Tensor::constant);
    reveal(elements);
    reveal(lows);
}

pub broadcast proof fn read_constant1(f: Functions, data: Seq<Scalar>, d: Seq<int>, a: int)
    requires
        !Tensor::constant(data, d).bad(),
        d.len() == 1,
    ensures
        #[trigger] at1(f, Tensor::constant(data, d), a) == number(f, data[a]),
{
    read_constant(f, data, d, seq![a]);
    place1(a, d[0]);
    assert(d =~= seq![d[0]]);
}

pub broadcast proof fn read_constant2(f: Functions, data: Seq<Scalar>, d: Seq<int>, a: int, b: int)
    requires
        !Tensor::constant(data, d).bad(),
        d.len() == 2,
    ensures
        #[trigger] at2(f, Tensor::constant(data, d), a, b) == number(f, data[a * d[1] + b]),
{
    read_constant(f, data, d, seq![a, b]);
    place2(a, b, d[0], d[1]);
    assert(d =~= seq![d[0], d[1]]);
}

pub broadcast proof fn read_linear3(f: Functions, t: Tensor, w: Seq<Scalar>, n: int, o: int, a: int, b: int, j: int)
    requires
        !t.linear(w, n, o).bad(),
        t.dims.len() == 3,
    ensures
        #[trigger] at3(f, t.linear(w, n, o), a, b, j) == mapped(f, row3(f, t, a, b), w, n, o, j),
{
    reveal(Tensor::linear);
    reveal(elements);
    let m = Tensor::constant(w, seq![n, o]);
    let i = seq![a, b, j];
    let (ga, gb) = (elements(f, t), elements(f, m));
    assert(m.dims == seq![n, o]) by {
        reveal(Tensor::constant);
    }
    let g = |k: int|
        ga(i.update(2, k)) * (if m.dims.len() == 2 {
            gb(seq![k, i.last()])
        } else {
            gb(i.update(1, k))
        });
    let h = |k: int| row3(f, t, a, b)(k) * number(f, w[k * o + j]);
    assert forall|k: int| 0 <= k < n implies #[trigger] g(k) == h(k) by {
        assert(i.update(2, k) =~= seq![a, b, k]);
        read_constant2(f, w, seq![n, o], k, j);
    }
    sums_alike(n, g, h);
}

pub broadcast proof fn read_linear2(f: Functions, t: Tensor, w: Seq<Scalar>, n: int, o: int, a: int, j: int)
    requires
        !t.linear(w, n, o).bad(),
        t.dims.len() == 2,
    ensures
        #[trigger] at2(f, t.linear(w, n, o), a, j) == mapped(f, row2(f, t, a), w, n, o, j),
{
    reveal(Tensor::linear);
    reveal(elements);
    let m = Tensor::constant(w, seq![n, o]);
    let i = seq![a, j];
    let (ga, gb) = (elements(f, t), elements(f, m));
    assert(m.dims == seq![n, o]) by {
        reveal(Tensor::constant);
    }
    let g = |k: int|
        ga(i.update(1, k)) * (if m.dims.len() == 2 {
            gb(seq![k, i.last()])
        } else {
            gb(i.update(0, k))
        });
    let h = |k: int| row2(f, t, a)(k) * number(f, w[k * o + j]);
    assert forall|k: int| 0 <= k < n implies #[trigger] g(k) == h(k) by {
        assert(i.update(1, k) =~= seq![a, k]);
        read_constant2(f, w, seq![n, o], k, j);
    }
    sums_alike(n, g, h);
}

/// A row of a matrix.
pub open spec fn row2(f: Functions, t: Tensor, a: int) -> Row {
    |k: int| at2(f, t, a, k)
}

/// The index `i`, or zero along an axis of one position.
pub open spec fn pick(d: int, i: int) -> int {
    if d == 1 {
        0
    } else {
        i
    }
}

/// The sum with a row, and the product with one.
pub broadcast proof fn read_add_row(f: Functions, t: Tensor, v: Tensor, a: int, b: int, c: int)
    requires
        !t.broadcast_add(v).bad(),
        t.dims.len() == 3,
        v.dims.len() == 1,
        0 <= a < t.dims[0],
        0 <= b < t.dims[1],
        0 <= c < t.dims[2],
        v.dims[0] == t.dims[2],
    ensures
        #[trigger] at3(f, t.broadcast_add(v), a, b, c) == at3(f, t, a, b, c) + at1(f, v, c),
{
    reveal(Tensor::broadcast_add);
    reveal(elements);
    let i = seq![a, b, c];
    under_same(i, t.dims);
    assert(under(i, v.dims) =~= seq![c]);
}

pub broadcast proof fn read_mul_row(f: Functions, t: Tensor, v: Tensor, a: int, b: int, c: int)
    requires
        !t.broadcast_mul(v).bad(),
        t.dims.len() == 3,
        v.dims.len() == 1,
        0 <= a < t.dims[0],
        0 <= b < t.dims[1],
        0 <= c < t.dims[2],
        v.dims[0] == t.dims[2],
    ensures
        #[trigger] at3(f, t.broadcast_mul(v), a, b, c) == at3(f, t, a, b, c) * at1(f, v, c),
{
    reveal(Tensor::broadcast_mul);
    reveal(elements);
    let i = seq![a, b, c];
    under_same(i, t.dims);
    assert(under(i, v.dims) =~= seq![c]);
}

/// The same for matrices.
pub broadcast proof fn read_add_row2(f: Functions, t: Tensor, v: Tensor, a: int, c: int)
    requires
        !t.broadcast_add(v).bad(),
        t.dims.len() == 2,
        v.dims.len() == 1,
        0 <= a < t.dims[0],
        0 <= c < t.dims[1],
        v.dims[0] == t.dims[1],
    ensures
        #[trigger] at2(f, t.broadcast_add(v), a, c) == at2(f, t, a, c) + at1(f, v, c),
{
    reveal(Tensor::broadcast_add);
    reveal(elements);
    let i = seq![a, c];
    under_same(i, t.dims);
    assert(under(i, v.dims) =~= seq![c]);
}

pub broadcast proof fn read_standard3(f: Functions, t: Tensor, eps: Scalar, a: int, b: int, c: int)
    requires
        !t.bad(),
        t.dims.len() == 3,
    ensures
        #[trigger] at3(f, t.layer_norm_last_dim(eps), a, b, c) == standard(
            f,
            row3(f, t, a, b),
            t.dims[2],
            number(f, eps),
            c,
        ),
{
    reveal(Tensor::layer_norm_last_dim);
    reveal(elements);
    let i = seq![a, b, c];
    let g = elements(f, t);
    let x = |k: int| g(i.update(2, k));
    let y = row3(f, t, a, b);
    assert forall|k: int| #[trigger] x(k) == y(k) by {
        assert(i.update(2, k) =~= seq![a, b, k]);
    }
    assert(x =~= y);
}

pub broadcast proof fn read_unit_square3(f: Functions, t: Tensor, eps: Scalar, a: int, b: int, c: int)
    requires
        !t.bad(),
        t.dims.len() == 3,
    ensures
        #[trigger] at3(f, t.rms_norm_last_dim(eps), a, b, c) == unit_square(
            f,
            row3(f, t, a, b),
            t.dims[2],
            number(f, eps),
            c,
        ),
{
    reveal(Tensor::rms_norm_last_dim);
    reveal(elements);
    let i = seq![a, b, c];
    let g = elements(f, t);
    let x = |k: int| g(i.update(2, k));
    let y = row3(f, t, a, b);
    assert forall|k: int| #[trigger] x(k) == y(k) by {
        assert(i.update(2, k) =~= seq![a, b, k]);
    }
    assert(x =~= y);
}

pub broadcast proof fn read_softmax3(f: Functions, t: Tensor, a: int, b: int, c: int)
    requires
        !t.bad(),
        t.dims.len() == 3,
        forall|i: Seq<int>| !(#[trigger] lows(t)(i)),
    ensures
        #[trigger] at3(f, t.softmax_last_dim(), a, b, c) == share(
            f,
            row3(f, t, a, b),
            |k: int| false,
            t.dims[2],
            c,
        ),
{
    reveal(Tensor::softmax_last_dim);
    reveal(elements);
    let i = seq![a, b, c];
    let g = elements(f, t);
    let l = lows(t);
    let x = |k: int| g(i.update(2, k));
    let y = row3(f, t, a, b);
    let p = |k: int| l(i.update(2, k));
    let q = |k: int| false;
    assert forall|k: int| #[trigger] x(k) == y(k) by {
        assert(i.update(2, k) =~= seq![a, b, k]);
    }
    assert forall|k: int| #[trigger] p(k) == q(k) by {
        assert(!l(i.update(2, k)));
    }
    assert(x =~= y);
    assert(p =~= q);
}

/// Which elements of a row of `(batch, heads, seq, seq)` are hidden.
pub open spec fn lows4(t: Tensor, a: int, b: int, c: int) -> spec_fn(int) -> bool {
    |k: int| low4(t, a, b, c, k)
}

pub broadcast proof fn read_softmax4(f: Functions, t: Tensor, a: int, b: int, c: int, d: int)
    requires
        !t.bad(),
        t.dims.len() == 4,
    ensures
        #[trigger] at4(f, t.softmax_last_dim(), a, b, c, d) == share(
            f,
            row4(f, t, a, b, c),
            lows4(t, a, b, c),
            t.dims[3],
            d,
        ),
{
    reveal(Tensor::softmax_last_dim);
    reveal(elements);
    let i = seq![a, b, c, d];
    let g = elements(f, t);
    let l = lows(t);
    let x = |k: int| g(i.update(3, k));
    let y = row4(f, t, a, b, c);
    let p = |k: int| l(i.update(3, k));
    let q = lows4(t, a, b, c);
    assert forall|k: int| #[trigger] x(k) == y(k) by {
        assert(i.update(3, k) =~= seq![a, b, c, k]);
    }
    assert forall|k: int| #[trigger] p(k) == q(k) by {
        assert(i.update(3, k) =~= seq![a, b, c, k]);
    }
    assert(x =~= y);
    assert(p =~= q);
}

pub broadcast proof fn read_matmul4(f: Functions, p: Tensor, q: Tensor, a: int, b: int, c: int, d: int)
    requires
        !p.matmul(q).bad(),
        p.dims.len() == 4,
        q.dims.len() == 4,
    ensures
        #[trigger] at4(f, p.matmul(q), a, b, c, d) == sum(
            p.dims[3],
            |k: int| at4(f, p, a, b, c, k) * at4(f, q, a, b, k, d),
        ),
{
    reveal(Tensor::matmul);
    reveal(elements);
    let i = seq![a, b, c, d];
    let (ga, gb) = (elements(f, p), elements(f, q));
    let g = |k: int|
        ga(i.update(3, k)) * (if q.dims.len() == 2 {
            gb(seq![k, i.last()])
        } else {
            gb(i.update(2, k))
        });
    let h = |k: int| at4(f, p, a, b, c, k) * at4(f, q, a, b, k, d);
    assert forall|k: int| #[trigger] g(k) == h(k) by {
        assert(i.update(3, k) =~= seq![a, b, c, k]);
        assert(i.update(2, k) =~= seq![a, b, k, d]);
    }
    assert(g =~= h);
}

/// Rows of tokens against the columns of one matrix.
pub broadcast proof fn read_matmul_shared(f: Functions, p: Tensor, q: Tensor, a: int, b: int, c: int)
    requires
        !p.matmul(q).bad(),
        p.dims.len() == 3,
        q.dims.len() == 2,
    ensures
        #[trigger] at3(f, p.matmul(q), a, b, c) == sum(
            p.dims[2],
            |k: int| at3(f, p, a, b, k) * at2(f, q, k, c),
        ),
{
    reveal(Tensor::matmul);
    reveal(elements);
    let i = seq![a, b, c];
    let (ga, gb) = (elements(f, p), elements(f, q));
    let g = |k: int|
        ga(i.update(2, k)) * (if q.dims.len() == 2 {
            gb(seq![k, i.last()])
        } else {
            gb(i.update(1, k))
        });
    let h = |k: int| at3(f, p, a, b, k) * at2(f, q, k, c);
    assert forall|k: int| #[trigger] g(k) == h(k) by {
        assert(i.update(2, k) =~= seq![a, b, k]);
    }
    assert(g =~= h);
}

/// Rows of a matrix against the columns of another.
pub broadcast proof fn read_matmul2(f: Functions, p: Tensor, q: Tensor, a: int, c: int)
    requires
        !p.matmul(q).bad(),
        p.dims.len() == 2,
        q.dims.len() == 2,
    ensures
        #[trigger] at2(f, p.matmul(q), a, c) == sum(p.dims[1], |k: int| at2(f, p, a, k) * at2(f, q, k, c)),
{
    reveal(Tensor::matmul);
    reveal(elements);
    let i = seq![a, c];
    let (ga, gb) = (elements(f, p), elements(f, q));
    let g = |k: int|
        ga(i.update(1, k)) * (if q.dims.len() == 2 {
            gb(seq![k, i.last()])
        } else {
            gb(i.update(0, k))
        });
    let h = |k: int| at2(f, p, a, k) * at2(f, q, k, c);
    assert forall|k: int| #[trigger] g(k) == h(k) by {
        assert(i.update(1, k) =~= seq![a, k]);
    }
    assert(g =~= h);
}

/// The index of the first least element of a row.
pub broadcast proof fn read_argmin2(f: Functions, t: Tensor, x: int, a: int)
    requires
        !t.argmin_dim(x).bad(),
        t.dims.len() == 2,
        x == 1,
    ensures
        #[trigger] at1(f, t.argmin_dim(x), a) == first_least(row2(f, t, a), t.dims[1]) as real,
{
    reveal(Tensor::argmin_dim);
    reveal(elements);
    let i = seq![a];
    let ga = elements(f, t);
    let g = |k: int| ga(i.insert(1, k));
    assert forall|k: int| #[trigger] g(k) == row2(f, t, a)(k) by {
        assert(i.insert(1, k) =~= seq![a, k]);
    }
    assert(g =~= row2(f, t, a));
}

/// Rows picked by indices.
pub broadcast proof fn read_select2(f: Functions, t: Tensor, x: int, ids: Tensor, a: int, b: int)
    requires
        !t.index_select(x, ids).bad(),
        t.dims.len() == 2,
        x == 0,
    ensures
        #[trigger] at2(f, t.index_select(x, ids), a, b) == at2(f, t, at1(f, ids, a).floor(), b),
{
    reveal(Tensor::index_select);
    reveal(elements);
    let e = at1(f, ids, a).floor();
    let i = seq![a, b];
    assert(i[0] == a);
    assert(i.update(0, e) =~= seq![e, b]);
    let p = t.index_select(x, ids);
    let (ga, gb) = (elements(f, t), elements(f, ids));
    assert(p.term == Term::Bin(Op::IndexSelect(0), Box::new(t), Box::new(ids)));
    assert(elements(f, p) == bin_elements(f, Op::IndexSelect(0), t.dims, ids.dims, ga, gb));
    assert(elements(f, p)(i) == ga(i.update(0, gb(seq![i[0]]).floor())));
}

/// A kernel of one tap maps the channels at each position.
pub proof fn read_conv1d_points(f: Functions, t: Tensor, w: Tensor, a: int, o: int, s: int)
    requires
        !t.conv1d(w, None, 1, 0, 1).bad(),
        t.dims.len() == 3,
        w.dims.len() == 3,
        w.dims[2] == 1,
        w.dims[1] == t.dims[1],
        0 <= a < t.dims[0],
        0 <= o < w.dims[0],
        0 <= s < t.dims[2],
    ensures
        at3(f, t.conv1d(w, None, 1, 0, 1), a, o, s) == sum(
            t.dims[1],
            |c: int| at3(f, t, a, c, s) * at3(f, w, o, c, 0),
        ),
{
    reveal(Tensor::conv1d);
    reveal(elements);
    let i = seq![a, o, s];
    let (ga, gb) = (elements(f, t), elements(f, w));
    let group = i[1] / (w.dims[0] / 1);
    assert(group == 0) by {
        assert(w.dims[0] / 1 == w.dims[0]);
        vstd::arithmetic::div_mod::lemma_basic_div(o, w.dims[0]);
    }
    let inner = |c: int|
        |k: int| or_zero(ga, seq![i[0], group * w.dims[1] + c, i[2] * 1 + k - 0], t.dims) * gb(seq![i[1], c, k]);
    let g = |c: int|
        sum(
            w.dims[2],
            |k: int|
                or_zero(ga, seq![i[0], group * w.dims[1] + c, i[2] * 1 + k - 0], t.dims) * gb(
                    seq![i[1], c, k],
                ),
        );
    let h = |c: int| at3(f, t, a, c, s) * at3(f, w, o, c, 0);
    assert forall|c: int| 0 <= c < t.dims[1] implies #[trigger] g(c) == h(c) by {
        let z = |k: int|
            or_zero(ga, seq![i[0], group * w.dims[1] + c, i[2] * 1 + k - 0], t.dims) * gb(seq![i[1], c, k]);
        assert(sum(1, z) == sum(0, z) + z(0));
        assert(sum(0, z) == 0real);
        assert(group * w.dims[1] == 0) by (nonlinear_arith)
            requires
                group == 0,
        ;
        assert(seq![i[0], group * w.dims[1] + c, i[2] * 1 + 0 - 0] =~= seq![a, c, s]);
        assert(inside(seq![a, c, s], t.dims));
    }
    sums_alike(t.dims[1], g, h);
}

pub broadcast proof fn read_constant3(f: Functions, data: Seq<Scalar>, d: Seq<int>, a: int, b: int, c: int)
    requires
        !Tensor::constant(data, d).bad(),
        d.len() == 3,
    ensures
        #[trigger] at3(f, Tensor::constant(data, d), a, b, c) == number(f, data[(a * d[1] + b) * d[2] + c]),
{
    read_constant(f, data, d, seq![a, b, c]);
    place3(a, b, c, d[0], d[1], d[2]);
    assert(d =~= seq![d[0], d[1], d[2]]);
}

pub broadcast proof fn read_transpose4(f: Functions, t: Tensor, a: int, b: int, c: int, d: int)
    requires
        !t.bad(),
        t.dims.len() == 4,
    ensures
        #[trigger] at4(f, t.transpose(), a, b, c, d) == at4(f, t, a, b, d, c),
{
    reveal(Tensor::transpose);
    reveal(elements);
    let i = seq![a, b, c, d];
    assert(i.update(3, i[2]).update(2, i[3]) =~= seq![a, b, d, c]);
}

pub broadcast proof fn read_split_heads(f: Functions, t: Tensor, n: int, w: int, a: int, b: int, c: int, d: int)
    requires
        !t.split_heads(n, w).bad(),
    ensures
        #[trigger] at4(f, t.split_heads(n, w), a, b, c, d) == at3(f, t, a, c, b * w + d),
{
    reveal(Tensor::split_heads);
    reveal(elements);
}

pub broadcast proof fn read_merge_heads(f: Functions, t: Tensor, a: int, b: int, c: int)
    requires
        !t.merge_heads().bad(),
    ensures
        #[trigger] at3(f, t.merge_heads(), a, b, c) == at4(f, t, a, c / t.dims[3], b, c % t.dims[3]),
{
    reveal(Tensor::merge_heads);
    reveal(elements);
}

/// Heads that are each repeated.
pub broadcast proof fn read_repeat4(f: Functions, t: Tensor, x: int, n: int, a: int, b: int, c: int, d: int)
    requires
        !t.repeat_interleave(x, n).bad(),
        t.dims.len() == 4,
        x == 1,
    ensures
        #[trigger] at4(f, t.repeat_interleave(x, n), a, b, c, d) == at4(f, t, a, b / n, c, d),
{
    reveal(Tensor::repeat_interleave);
    reveal(elements);
    assert(seq![a, b, c, d].update(1, b / n) =~= seq![a, b / n, c, d]);
}

/// The rotation of a head at one position: `half` is half its width.
pub open spec fn turned(x: Row, c: Row, s: Row, half: int, k: int) -> real {
    if k < half {
        x(k) * c(k) - x(k + half) * s(k)
    } else {
        x(k) * c(k) + x(k - half) * s(k)
    }
}

pub broadcast proof fn read_rope(f: Functions, t: Tensor, cos: Tensor, sin: Tensor, a: int, b: int, c: int, d: int)
    requires
        !t.rope_with_tables(cos, sin).bad(),
        t.dims.len() == 4,
    ensures
        #[trigger] at4(f, t.rope_with_tables(cos, sin), a, b, c, d) == turned(
            row4(f, t, a, b, c),
            row2(f, cos, c),
            row2(f, sin, c),
            t.dims[3] / 2,
            d,
        ),
{
    reveal(Tensor::rope_with_tables);
    reveal(elements);
    let i = seq![a, b, c, d];
    let half = t.dims[3] / 2;
    assert(i.update(3, d + half) =~= seq![a, b, c, d + half]);
    assert(i.update(3, d - half) =~= seq![a, b, c, d - half]);
}

pub broadcast proof fn read_rope_tables(f: Functions, theta: Scalar, start: int, n: int, w: int, a: int, b: int)
    ensures
        #[trigger] at2(f, Tensor::rope_cos(theta, start, n, w), a, b) == (f.cos)(
            angle(f, theta, start + a, w, b),
        ),
{
    reveal(Tensor::rope_cos);
    reveal(elements);
}

pub broadcast proof fn read_rope_sines(f: Functions, theta: Scalar, start: int, n: int, w: int, a: int, b: int)
    ensures
        #[trigger] at2(f, Tensor::rope_sin(theta, start, n, w), a, b) == (f.sin)(
            angle(f, theta, start + a, w, b),
        ),
{
    reveal(Tensor::rope_sin);
    reveal(elements);
}

pub broadcast proof fn read_narrow3(f: Functions, t: Tensor, x: int, s: int, l: int, a: int, b: int, c: int)
    requires
        !t.narrow(x, s, l).bad(),
        t.dims.len() == 3,
    ensures
        #[trigger] at3(f, t.narrow(x, s, l), a, b, c) == (if x == 0 {
            at3(f, t, a + s, b, c)
        } else if x == 1 {
            at3(f, t, a, b + s, c)
        } else {
            at3(f, t, a, b, c + s)
        }),
{
    reveal(Tensor::narrow);
    reveal(elements);
    let i = seq![a, b, c];
    assert(x == 0 ==> i.update(x, i[x] + s) =~= seq![a + s, b, c]);
    assert(x == 1 ==> i.update(x, i[x] + s) =~= seq![a, b + s, c]);
    assert(x == 2 ==> i.update(x, i[x] + s) =~= seq![a, b, c + s]);
}

pub broadcast proof fn read_concat3(f: Functions, t: Tensor, u: Tensor, x: int, a: int, b: int, c: int)
    requires
        !t.concat(u, x).bad(),
        t.dims.len() == 3,
    ensures
        #[trigger] at3(f, t.concat(u, x), a, b, c) == (if x == 0 {
            if a < t.dims[0] {
                at3(f, t, a, b, c)
            } else {
                at3(f, u, a - t.dims[0], b, c)
            }
        } else if x == 1 {
            if b < t.dims[1] {
                at3(f, t, a, b, c)
            } else {
                at3(f, u, a, b - t.dims[1], c)
            }
        } else {
            if c < t.dims[2] {
                at3(f, t, a, b, c)
            } else {
                at3(f, u, a, b, c - t.dims[2])
            }
        }),
{
    reveal(Tensor::concat);
    reveal(elements);
    let i = seq![a, b, c];
    assert(x == 0 ==> i.update(x, i[x] - t.dims[x]) =~= seq![a - t.dims[0], b, c]);
    assert(x == 1 ==> i.update(x, i[x] - t.dims[x]) =~= seq![a, b - t.dims[1], c]);
    assert(x == 2 ==> i.update(x, i[x] - t.dims[x]) =~= seq![a, b, c - t.dims[2]]);
}

/// Heads of two streams, one after the other along the positions.
pub broadcast proof fn read_concat4(f: Functions, t: Tensor, u: Tensor, x: int, a: int, b: int, c: int, d: int)
    requires
        !t.concat(u, x).bad(),
        t.dims.len() == 4,
        x == 2,
    ensures
        #[trigger] at4(f, t.concat(u, x), a, b, c, d) == (if c < t.dims[2] {
            at4(f, t, a, b, c, d)
        } else {
            at4(f, u, a, b, c - t.dims[2], d)
        }),
{
    reveal(Tensor::concat);
    reveal(elements);
    let i = seq![a, b, c, d];
    assert(i.update(2, i[2] - t.dims[2]) =~= seq![a, b, c - t.dims[2], d]);
}

pub proof fn read_narrow2(f: Functions, t: Tensor, s: int, l: int, a: int, b: int)
    requires
        !t.narrow(0, s, l).bad(),
        t.dims.len() == 2,
    ensures
        at2(f, t.narrow(0, s, l), a, b) == at2(f, t, a + s, b),
{
    reveal(Tensor::narrow);
    reveal(elements);
    let i = seq![a, b];
    assert(i.update(0, i[0] + s) =~= seq![a + s, b]);
}

pub proof fn read_squeeze(f: Functions, t: Tensor, a: int, b: int)
    requires
        !t.squeeze(1).bad(),
        t.dims.len() == 3,
    ensures
        at2(f, t.squeeze(1), a, b) == at3(f, t, a, 0, b),
{
    reveal(Tensor::squeeze);
    reveal(elements);
    assert(seq![a, b].insert(1, 0) =~= seq![a, 0, b]);
}

pub proof fn read_unsqueeze(f: Functions, t: Tensor, a: int, b: int, c: int)
    requires
        !t.unsqueeze(1).bad(),
        t.dims.len() == 2,
    ensures
        at3(f, t.unsqueeze(1), a, b, c) == at2(f, t, a, c),
{
    reveal(Tensor::unsqueeze);
    reveal(elements);
    assert(seq![a, b, c].remove(1) =~= seq![a, c]);
}

pub proof fn read_concat2(f: Functions, t: Tensor, u: Tensor, a: int, b: int)
    requires
        !t.concat(u, 1).bad(),
        t.dims.len() == 2,
    ensures
        at2(f, t.concat(u, 1), a, b) == (if b < t.dims[1] {
            at2(f, t, a, b)
        } else {
            at2(f, u, a, b - t.dims[1])
        }),
{
    reveal(Tensor::concat);
    reveal(elements);
    let i = seq![a, b];
    assert(i.update(1, i[1] - t.dims[1]) =~= seq![a, b - t.dims[1]]);
}

pub broadcast proof fn read_narrow4(f: Functions, t: Tensor, x: int, s: int, l: int, a: int, b: int, c: int, d: int)
    requires
        !t.narrow(x, s, l).bad(),
        t.dims.len() == 4,
        x == 3,
    ensures
        #[trigger] at4(f, t.narrow(x, s, l), a, b, c, d) == at4(f, t, a, b, c, d + s),
{
    reveal(Tensor::narrow);
    reveal(elements);
    let i = seq![a, b, c, d];
    assert(i.update(3, i[3] + s) =~= seq![a, b, c, d + s]);
}

pub broadcast proof fn read_concat4_last(f: Functions, t: Tensor, u: Tensor, x: int, a: int, b: int, c: int, d: int)
    requires
        !t.concat(u, x).bad(),
        t.dims.len() == 4,
        x == 3,
    ensures
        #[trigger] at4(f, t.concat(u, x), a, b, c, d) == (if d < t.dims[3] {
            at4(f, t, a, b, c, d)
        } else {
            at4(f, u, a, b, c, d - t.dims[3])
        }),
{
    reveal(Tensor::concat);
    reveal(elements);
    let i = seq![a, b, c, d];
    assert(i.update(3, i[3] - t.dims[3]) =~= seq![a, b, c, d - t.dims[3]]);
}

pub broadcast proof fn read_chunk2(f: Functions, t: Tensor, x: int, n: int, p: int, a: int, b: int)
    requires
        !t.chunk(x, n, p).bad(),
        t.dims.len() == 2,
        x == 1,
    ensures
        #[trigger] at2(f, t.chunk(x, n, p), a, b) == at2(f, t, a, b + p * (t.dims[1] / n)),
{
    reveal(Tensor::chunk);
    reveal(elements);
    let i = seq![a, b];
    let m = p * (t.dims[1] / n);
    assert(i.update(1, i[1] + m) =~= seq![a, b + m]);
}

/// The indices of an element are found again from its place.
pub proof fn places_come_back(i: Seq<int>, d: Seq<int>)
    requires
        inside(i, d),
    ensures
        unplaced(place(i, d), d) == i,
        place(i, d) >= 0,
    decreases d.len(),
{
    if d.len() > 0 {
        let (j, e) = (i.drop_last(), d.drop_last());
        assert forall|k: int| 0 <= k < j.len() implies 0 <= #[trigger] j[k] < e[k] by {
            assert(0 <= i[k] < d[k]);
        }
        places_come_back(j, e);
        assert(0 <= i[i.len() - 1] < d[d.len() - 1]);
        let (q, n, r) = (place(j, e), d.last(), i.last());
        vstd::arithmetic::div_mod::lemma_fundamental_div_mod_converse(q * n + r, n, q, r);
        assert(q * n >= 0) by (nonlinear_arith)
            requires
                q >= 0,
                n >= 0,
        ;
        assert(i =~= j.push(r));
    } else {
        assert(i =~= Seq::<int>::empty());
    }
}

/// Reshaping keeps every element at its place.
pub proof fn read_reshape(f: Functions, t: Tensor, to: Seq<int>, i: Seq<int>, k: Seq<int>)
    requires
        !t.reshape(to).bad(),
        inside(i, t.dims),
        place(i, t.dims) == place(k, to),
    ensures
        at(f, t.reshape(to), k) == at(f, t, i),
        lows(t.reshape(to))(k) == lows(t)(i),
{
    reveal(Tensor::reshape);
    reveal(elements);
    reveal(lows);
    places_come_back(i, t.dims);
}

/// A list of axes names the axis `p`.
pub open spec fn names(ax: Seq<int>, p: int) -> bool {
    exists|m: int| 0 <= m < ax.len() && #[trigger] ax[m] == p
}

/// Permuting the axes permutes the indices.
pub proof fn read_permute(f: Functions, t: Tensor, ax: Seq<int>, i: Seq<int>, k: Seq<int>)
    requires
        !t.permute(ax).bad(),
        ax.len() <= 6,
        i.len() == ax.len(),
        k.len() == ax.len(),
        forall|m: int| 0 <= m < ax.len() ==> #[trigger] k[m] == i[ax[m]],
        forall|p: int| 0 <= p < ax.len() ==> #[trigger] names(ax, p),
    ensures
        at(f, t.permute(ax), k) == at(f, t, i),
{
    reveal(Tensor::permute);
    reveal(elements);
    let six = seq![
        crate::lazy::axis_or(ax, 0),
        crate::lazy::axis_or(ax, 1),
        crate::lazy::axis_or(ax, 2),
        crate::lazy::axis_or(ax, 3),
        crate::lazy::axis_or(ax, 4),
        crate::lazy::axis_or(ax, 5),
    ];
    assert(six.take(k.len() as int) =~= ax);
    assert forall|p: int| 0 <= p < k.len() implies #[trigger] unpermuted(k, ax)[p] == i[p] by {
        assert(names(ax, p));
        let m = slot(ax, p);
        assert(0 <= m < ax.len() && ax[m] == p);
        assert(k[m] == i[ax[m]]);
    }
    assert(unpermuted(k, ax) =~= i);
}

pub broadcast proof fn read_permute_heads(f: Functions, t: Tensor, ax: Seq<int>, a: int, b: int, c: int, d: int)
    requires
        !t.permute(ax).bad(),
        ax =~= seq![0, 2, 1, 3],
    ensures
        #[trigger] at4(f, t.permute(ax), a, b, c, d) == at4(f, t, a, c, b, d),
{
    assert(ax[0] == 0 && ax[1] == 2 && ax[2] == 1 && ax[3] == 3);
    read_permute(f, t, ax, seq![a, c, b, d], seq![a, b, c, d]);
}

pub broadcast proof fn read_permute3(f: Functions, t: Tensor, ax: Seq<int>, a: int, b: int, c: int)
    requires
        !t.permute(ax).bad(),
        ax =~= seq![0, 2, 1],
    ensures
        #[trigger] at3(f, t.permute(ax), a, b, c) == at3(f, t, a, c, b),
{
    assert(ax[0] == 0 && ax[1] == 2 && ax[2] == 1);
    read_permute(f, t, ax, seq![a, c, b], seq![a, b, c]);
}

pub broadcast proof fn read_permute_front(f: Functions, t: Tensor, ax: Seq<int>, a: int, b: int, c: int)
    requires
        !t.permute(ax).bad(),
        ax =~= seq![1, 0, 2],
    ensures
        #[trigger] at3(f, t.permute(ax), a, b, c) == at3(f, t, b, a, c),
{
    assert(ax[0] == 1 && ax[1] == 0 && ax[2] == 2);
    read_permute(f, t, ax, seq![b, a, c], seq![a, b, c]);
}

pub broadcast proof fn read_permute2(f: Functions, t: Tensor, ax: Seq<int>, a: int, b: int)
    requires
        !t.permute(ax).bad(),
        ax =~= seq![1, 0],
    ensures
        #[trigger] at2(f, t.permute(ax), a, b) == at2(f, t, b, a),
{
    assert(ax[0] == 1 && ax[1] == 0);
    read_permute(f, t, ax, seq![b, a], seq![a, b]);
}

/// An element that is stretched over axes of one position.
pub proof fn read_broadcast3(f: Functions, t: Tensor, to: Seq<int>, a: int, b: int, c: int)
    requires
        !t.broadcast_to(to).bad(),
        t.dims.len() == 3,
    ensures
        at3(f, t.broadcast_to(to), a, b, c) == at3(
            f,
            t,
            pick(t.dims[0], a),
            pick(t.dims[1], b),
            pick(t.dims[2], c),
        ),
{
    reveal(Tensor::broadcast_to);
    reveal(elements);
    assert(under(seq![a, b, c], t.dims) =~= seq![
        pick(t.dims[0], a),
        pick(t.dims[1], b),
        pick(t.dims[2], c),
    ]);
}

/// A sum with a mask that is stretched over the heads.
pub broadcast proof fn read_masked(f: Functions, t: Tensor, m: Tensor, a: int, b: int, c: int, d: int)
    requires
        !t.broadcast_add(m).bad(),
        t.dims.len() == 4,
        m.dims.len() == 4,
        0 <= a < t.dims[0],
        0 <= b < t.dims[1],
        0 <= c < t.dims[2],
        0 <= d < t.dims[3],
    ensures
        #[trigger] at4(f, t.broadcast_add(m), a, b, c, d) == at4(f, t, a, b, c, d) + at4(
            f,
            m,
            pick(m.dims[0], a),
            pick(m.dims[1], b),
            pick(m.dims[2], c),
            pick(m.dims[3], d),
        ),
{
    reveal(Tensor::broadcast_add);
    reveal(elements);
    let i = seq![a, b, c, d];
    under_same(i, t.dims);
    assert(under(i, m.dims) =~= seq![
        pick(m.dims[0], a),
        pick(m.dims[1], b),
        pick(m.dims[2], c),
        pick(m.dims[3], d),
    ]);
}

/// What a mask hides is hidden in the sum with scores that hide nothing.
pub broadcast proof fn low_masked(t: Tensor, m: Tensor, a: int, b: int, c: int, d: int)
    requires
        !t.broadcast_add(m).bad(),
        t.dims.len() == 4,
        m.dims.len() == 4,
        forall|i: Seq<int>| !(#[trigger] lows(t)(i)),
    ensures
        #[trigger] low4(t.broadcast_add(m), a, b, c, d) == low4(
            m,
            pick(m.dims[0], a),
            pick(m.dims[1], b),
            pick(m.dims[2], c),
            pick(m.dims[3], d),
        ),
{
    reveal(Tensor::broadcast_add);
    let i = seq![a, b, c, d];
    assert(!lows(t)(under(i, t.dims)));
    reveal(lows);
    assert(under(i, m.dims) =~= seq![
        pick(m.dims[0], a),
        pick(m.dims[1], b),
        pick(m.dims[2], c),
        pick(m.dims[3], d),
    ]);
}

/// What is hidden in the sum of two masks.
pub proof fn low_sum(t: Tensor, m: Tensor, a: int, b: int, c: int, d: int)
    requires
        !t.broadcast_add(m).bad(),
        t.dims.len() == 4,
        m.dims.len() == 4,
        0 <= a < t.dims[0],
        0 <= b < t.dims[1],
        0 <= c < t.dims[2],
        0 <= d < t.dims[3],
    ensures
        low4(t.broadcast_add(m), a, b, c, d) == (low4(t, a, b, c, d) || low4(
            m,
            pick(m.dims[0], a),
            pick(m.dims[1], b),
            pick(m.dims[2], c),
            pick(m.dims[3], d),
        )),
{
    reveal(Tensor::broadcast_add);
    let i = seq![a, b, c, d];
    under_same(i, t.dims);
    reveal(lows);
    assert(under(i, m.dims) =~= seq![
        pick(m.dims[0], a),
        pick(m.dims[1], b),
        pick(m.dims[2], c),
        pick(m.dims[3], d),
    ]);
}

/// Products hide nothing.
pub broadcast proof fn low_linear(t: Tensor, w: Seq<Scalar>, n: int, o: int, i: Seq<int>)
    requires
        !t.linear(w, n, o).bad(),
    ensures
        !(#[trigger] lows(t.linear(w, n, o))(i)),
{
    reveal(Tensor::linear);
    reveal(lows);
}

pub broadcast proof fn low_scaled(t: Tensor, s: Scalar, i: Seq<int>)
    requires
        !t.bad(),
    ensures
        !(#[trigger] lows(t.mul_scalar(s))(i)),
{
    reveal(Tensor::mul_scalar);
    reveal(lows);
}

/// The rows of a table that tokens pick.
pub proof fn read_embedding(f: Functions, table: Seq<Scalar>, vocab: int, width: int, tokens: Seq<u32>, s: int, k: int)
    requires
        !Tensor::embed_tokens(table, vocab, width, tokens).bad(),
        0 <= s < tokens.len(),
        0 <= k < width,
    ensures
        at3(f, Tensor::embed_tokens(table, vocab, width, tokens), 0, s, k) == number(
            f,
            table[tokens[s] * width + k],
        ),
{
    let n = tokens.len() as int;
    let m = Tensor::constant(table, seq![vocab, width]);
    let ids = Tensor::ids(tokens);
    let p = m.index_select(0, ids);
    assert(!p.bad() && p.dims == seq![n, width] && !m.bad() && m.dims == seq![vocab, width]) by {
        reveal(Tensor::constant);
        reveal(Tensor::ids);
        reveal(Tensor::index_select);
        reveal(Tensor::reshape);
        assert(p.dims =~= seq![n, width]);
    }
    place2(s, k, n, width);
    place3(0, s, k, 1, n, width);
    read_reshape(f, p, seq![1, n, width], seq![s, k], seq![0, s, k]);
    let e = tokens[s] as int;
    assert(at(f, ids, seq![s]) == e as real) by {
        reveal(Tensor::ids);
        reveal(elements);
    }
    read_select2(f, m, 0, ids, s, k);
    assert((e as real).floor() == e);
    read_constant2(f, table, seq![vocab, width], e, k);
}

proof fn zero_over(x: real)
    requires
        x > 0real,
    ensures
        0real / x == 0real,
{
    assert(0real / x == 0real) by (nonlinear_arith)
        requires
            x > 0real,
    ;
}

proof fn over_itself(x: real)
    requires
        x > 0real,
    ensures
        x / x == 1real,
{
    assert(x / x == 1real) by (nonlinear_arith)
        requires
            x > 0real,
    ;
}

/// The numbers of the constants zero and one.
pub proof fn numbers_zero_one(f: Functions)
    ensures
        number(f, zero()) == 0real,
        number(f, Scalar::F64(0x3FF0_0000_0000_0000)) == 1real,
        number(f, Scalar::F32(0x3F80_0000)) == 1real,
{
    vstd::arithmetic::power2::lemma2_to64();
    vstd::arithmetic::power2::lemma2_to64_rest();
    assert(decoded(0, 23, 256, 127) == 0real) by {
        assert(0int % 0x800000 == 0 && 0int / 0x800000 == 0);
        assert(scaled(0, -149) == 0real) by {
            vstd::arithmetic::power2::lemma_pow2_pos(149);
            zero_over(vstd::arithmetic::power2::pow2(149) as real);
        }
    }
    assert(decoded(0x3FF0_0000_0000_0000, 52, 2048, 1023) == 1real) by {
        assert(0x3FF0_0000_0000_0000int / 0x10_0000_0000_0000 == 1023);
        over_itself(0x10_0000_0000_0000int as real);
        assert(scaled(0x10_0000_0000_0000, -52) == 1real);
    }
    assert(decoded(0x3F80_0000, 23, 256, 127) == 1real) by {
        assert(0x3F80_0000int / 0x800000 == 127);
        over_itself(0x800000int as real);
        assert(scaled(0x800000, -23) == 1real);
    }
}

/// The scale of attention.
pub proof fn number_of_scale(f: Functions, n: usize)
    ensures
        number(f, inv_sqrt64(n)) == 1real / (f.sqrt)(n as int as real),
{
    numbers_zero_one(f);
    reveal_with_fuel(number, 4);
}

pub broadcast group readings {
    read_neg,
    read_exp,
    read_silu,
    read_relu,
    read_gelu,
    read_gelu_erf,
    read_sigmoid,
    read_sin,
    read_cos,
    read_elu,
    read_mul_scalar,
    read_add_scalar,
    read_add,
    read_sub,
    read_mul,
    read_constant1,
    read_constant2,
    read_linear3,
    read_linear2,
    read_add_row,
    read_mul_row,
    read_add_row2,
    read_standard3,
    read_unit_square3,
    read_softmax3,
    read_softmax4,
    read_matmul4,
    read_matmul_shared,
    read_matmul2,
    read_argmin2,
    read_select2,
    read_constant3,
    read_transpose4,
    read_split_heads,
    read_merge_heads,
    read_repeat4,
    read_rope,
    read_rope_tables,
    read_rope_sines,
    read_narrow3,
    read_concat3,
    read_concat4,
    read_narrow4,
    read_concat4_last,
    read_chunk2,
    read_permute_heads,
    read_permute3,
    read_permute_front,
    read_permute2,
    read_masked,
    low_masked,
    low_linear,
    low_scaled,
}

} // verus!
