//! What it is to evaluate tensors, seen from the positions of their axes.
//!
//! An evaluation gives a tensor a value at each position of each of its axes: the
//! slice of its elements there. [`lawful`] says what the operations mean for an
//! evaluation. Most of them work position by position; a convolution reads a
//! window; attention under a causal mask does not look ahead.

use crate::common::causal_data;
use crate::lazy::Tensor;
use crate::scalar::{neg_inf, Scalar};
use vstd::prelude::*;

verus! {

/// The value of a tensor at a position of an axis, given in this order.
pub type At<V> = spec_fn(Tensor, int, int) -> V;

/// Two tensors have the same value at position `j` of axis `a`.
pub open spec fn same<V>(at: At<V>, t: Tensor, u: Tensor, a: int, j: int) -> bool {
    at(t, a, j) == at(u, a, j)
}

/// Two tensors agree at the first `m` positions of axis `a`.
pub open spec fn agrees<V>(at: At<V>, t: Tensor, u: Tensor, a: int, m: int) -> bool {
    forall|j: int| 0 <= j < m ==> #[trigger] same(at, t, u, a, j)
}

/// Functions of one element work element by element.
pub open spec fn activates<V>(at: At<V>) -> bool {
    &&& forall|t: Tensor, u: Tensor, a: int, j: int|
        !t.bad() && !u.bad() && same(at, t, u, a, j) ==> #[trigger] same(at, t.relu(), u.relu(), a, j)
    &&& forall|t: Tensor, u: Tensor, a: int, j: int|
        !t.bad() && !u.bad() && same(at, t, u, a, j) ==> #[trigger] same(at, t.silu(), u.silu(), a, j)
    &&& forall|t: Tensor, u: Tensor, a: int, j: int|
        !t.bad() && !u.bad() && same(at, t, u, a, j) ==> #[trigger] same(at, t.gelu(), u.gelu(), a, j)
    &&& forall|t: Tensor, u: Tensor, a: int, j: int|
        !t.bad() && !u.bad() && same(at, t, u, a, j) ==> #[trigger] same(
            at,
            t.gelu_erf(),
            u.gelu_erf(),
            a,
            j,
        )
    &&& forall|t: Tensor, u: Tensor, a: int, j: int|
        !t.bad() && !u.bad() && same(at, t, u, a, j) ==> #[trigger] same(at, t.exp(), u.exp(), a, j)
    &&& forall|t: Tensor, u: Tensor, a: int, j: int|
        !t.bad() && !u.bad() && same(at, t, u, a, j) ==> #[trigger] same(at, t.log(), u.log(), a, j)
    &&& forall|t: Tensor, u: Tensor, c: Scalar, a: int, j: int|
        !t.bad() && !u.bad() && same(at, t, u, a, j) ==> #[trigger] same(
            at,
            t.add_scalar(c),
            u.add_scalar(c),
            a,
            j,
        )
    &&& forall|t: Tensor, u: Tensor, alpha: Scalar, a: int, j: int|
        !t.bad() && !u.bad() && same(at, t, u, a, j) ==> #[trigger] same(
            at,
            t.elu(alpha),
            u.elu(alpha),
            a,
            j,
        )
    &&& forall|t: Tensor, u: Tensor, c: Scalar, a: int, j: int|
        !t.bad() && !u.bad() && same(at, t, u, a, j) ==> #[trigger] same(
            at,
            t.mul_scalar(c),
            u.mul_scalar(c),
            a,
            j,
        )
}

/// Sums, differences and products work element by element.
pub open spec fn combines<V>(at: At<V>) -> bool {
    &&& forall|t: Tensor, v: Tensor, u: Tensor, w: Tensor, a: int, j: int|
        !t.add(v).bad() && !u.add(w).bad() && same(at, t, u, a, j) && same(at, v, w, a, j)
            ==> #[trigger] same(at, t.add(v), u.add(w), a, j)
    &&& forall|t: Tensor, v: Tensor, u: Tensor, w: Tensor, a: int, j: int|
        !t.sub(v).bad() && !u.sub(w).bad() && same(at, t, u, a, j) && same(at, v, w, a, j)
            ==> #[trigger] same(at, t.sub(v), u.sub(w), a, j)
    &&& forall|t: Tensor, v: Tensor, u: Tensor, w: Tensor, a: int, j: int|
        !t.mul(v).bad() && !u.mul(w).bad() && same(at, t, u, a, j) && same(at, v, w, a, j)
            ==> #[trigger] same(at, t.mul(v), u.mul(w), a, j)
}

/// Maps of the last axis work on each row of features by itself.
pub open spec fn maps_rows<V>(at: At<V>) -> bool {
    &&& forall|t: Tensor, u: Tensor, eps: Scalar, a: int, j: int|
        a + 1 < t.rank() && t.rank() == u.rank() && !t.bad() && !u.bad() && same(at, t, u, a, j)
            ==> #[trigger] same(at, t.layer_norm_last_dim(eps), u.layer_norm_last_dim(eps), a, j)
    &&& forall|t: Tensor, u: Tensor, eps: Scalar, a: int, j: int|
        a + 1 < t.rank() && t.rank() == u.rank() && !t.bad() && !u.bad() && same(at, t, u, a, j)
            ==> #[trigger] same(at, t.rms_norm_last_dim(eps), u.rms_norm_last_dim(eps), a, j)
    &&& forall|t: Tensor, u: Tensor, a: int, j: int|
        a + 1 < t.rank() && t.rank() == u.rank() && !t.bad() && !u.bad() && same(at, t, u, a, j)
            ==> #[trigger] same(at, t.softmax_last_dim(), u.softmax_last_dim(), a, j)
    &&& forall|t: Tensor, u: Tensor, w: Seq<Scalar>, i: int, o: int, a: int, j: int|
        a + 1 < t.rank() && t.rank() == u.rank() && !t.linear(w, i, o).bad() && !u.linear(w, i, o).bad()
            && same(at, t, u, a, j) ==> #[trigger] same(at, t.linear(w, i, o), u.linear(w, i, o), a, j)
    &&& forall|t: Tensor, u: Tensor, m: Tensor, a: int, j: int|
        (m.rank() == 2 && a + 1 < t.rank() || a + 2 == t.rank()) && t.rank() == u.rank() && !t.matmul(
            m,
        ).bad() && !u.matmul(m).bad() && same(at, t, u, a, j) ==> #[trigger] same(at, t.matmul(m), u.matmul(m), a, j)
    &&& forall|t: Tensor, u: Tensor, r: Tensor, a: int, j: int|
        a + 1 < t.rank() && t.rank() == u.rank() && r.rank() == 1 && !t.broadcast_add(r).bad()
            && !u.broadcast_add(r).bad() && same(at, t, u, a, j) ==> #[trigger] same(
            at,
            t.broadcast_add(r),
            u.broadcast_add(r),
            a,
            j,
        )
    &&& forall|t: Tensor, u: Tensor, r: Tensor, a: int, j: int|
        a + 1 < t.rank() && t.rank() == u.rank() && r.rank() == 1 && !t.broadcast_mul(r).bad()
            && !u.broadcast_mul(r).bad() && same(at, t, u, a, j) ==> #[trigger] same(
            at,
            t.broadcast_mul(r),
            u.broadcast_mul(r),
            a,
            j,
        )
    &&& forall|t: Tensor, u: Tensor, r: Tensor, a: int, j: int|
        0 <= a < r.rank() && t.rank() == r.rank() && u.rank() == r.rank() && r.dims[a] == 1
            && !t.broadcast_mul(r).bad() && !u.broadcast_mul(r).bad() && same(at, t, u, a, j)
            ==> #[trigger] same(at, t.broadcast_mul(r), u.broadcast_mul(r), a, j)
    &&& forall|t: Tensor, u: Tensor, j: int|
        t.rank() == 2 && u.rank() == 2 && !t.bad() && !u.bad() && same(at, t, u, 0, j)
            ==> #[trigger] same(at, t.argmin_dim(1), u.argmin_dim(1), 0, j)
    &&& forall|table: Tensor, t: Tensor, u: Tensor, j: int|
        !table.index_select(0, t).bad() && !table.index_select(0, u).bad() && same(at, t, u, 0, j)
            ==> #[trigger] same(at, table.index_select(0, t), table.index_select(0, u), 0, j)
}

/// The shapes `x` and `y` become `d` and `e`: up to axis `a`, and with it, they
/// stay, and behind it they are regrouped in the same way.
pub open spec fn regroups_behind(x: Seq<int>, y: Seq<int>, d: Seq<int>, e: Seq<int>, a: int) -> bool {
    &&& x.take(a + 1) =~= d.take(a + 1)
    &&& y.take(a + 1) =~= e.take(a + 1)
    &&& x.skip(a + 1) =~= y.skip(a + 1)
    &&& d.skip(a + 1) =~= e.skip(a + 1)
}

/// The shapes `x` and `y` become `d` and `e`: axis `a` becomes axis `b`, and what
/// is behind it stays; in front of it they are regrouped in the same way.
pub open spec fn regroups_front(
    x: Seq<int>,
    y: Seq<int>,
    d: Seq<int>,
    e: Seq<int>,
    a: int,
    b: int,
) -> bool {
    &&& x.skip(a) =~= d.skip(b)
    &&& y.skip(a) =~= e.skip(b)
    &&& x.take(a) =~= y.take(a)
    &&& d.take(b) =~= e.take(b)
}

/// Axes in another order keep their positions; what stands in front of an axis, or
/// behind it, can be regrouped; axes of one position can be put in.
pub open spec fn reshapes<V>(at: At<V>) -> bool {
    &&& forall|t: Tensor, u: Tensor, p: Seq<int>, a: int, j: int|
        0 <= a < p.len() && !t.permute(p).bad() && !u.permute(p).bad() && same(at, t, u, p[a], j)
            ==> #[trigger] same(at, t.permute(p), u.permute(p), a, j)
    &&& forall|t: Tensor, u: Tensor, d: Seq<int>, e: Seq<int>, a: int, j: int|
        0 <= a && a < t.rank() && a < u.rank() && a < d.len() && a < e.len() && regroups_behind(
            t.dims,
            u.dims,
            d,
            e,
            a,
        ) && !t.reshape(d).bad() && !u.reshape(e).bad() && same(at, t, u, a, j) ==> #[trigger] same(
            at,
            t.reshape(d),
            u.reshape(e),
            a,
            j,
        )
    &&& forall|t: Tensor, u: Tensor, d: Seq<int>, e: Seq<int>, b: int, j: int|
        {
            let a = b - (d.len() - t.rank());
            0 <= a && 0 <= b < d.len() && t.rank() == u.rank() && d.len() == e.len() && regroups_front(
                t.dims,
                u.dims,
                d,
                e,
                a,
                b,
            ) && !t.reshape(d).bad() && !u.reshape(e).bad() && same(at, t, u, a, j)
        } ==> #[trigger] same(at, t.reshape(d), u.reshape(e), b, j)
    &&& forall|t: Tensor, u: Tensor, axis: int, a: int, j: int|
        a != axis && !t.unsqueeze(axis).bad() && !u.unsqueeze(axis).bad() && same(
            at,
            t,
            u,
            if a < axis {
                a
            } else {
                a - 1
            },
            j,
        ) ==> #[trigger] same(at, t.unsqueeze(axis), u.unsqueeze(axis), a, j)
}

/// Rows `(batch, time, features)` become heads `(batch, heads, time, width)` and
/// rows again; heads are repeated and turned by the angles of their time.
pub open spec fn handles_heads<V>(at: At<V>) -> bool {
    &&& forall|t: Tensor, u: Tensor, h: int, w: int, j: int|
        !t.split_heads(h, w).bad() && !u.split_heads(h, w).bad() && same(at, t, u, 1, j)
            ==> #[trigger] same(at, t.split_heads(h, w), u.split_heads(h, w), 2, j)
    &&& forall|t: Tensor, u: Tensor, j: int|
        !t.merge_heads().bad() && !u.merge_heads().bad() && same(at, t, u, 2, j) ==> #[trigger] same(
            at,
            t.merge_heads(),
            u.merge_heads(),
            1,
            j,
        )
    &&& forall|t: Tensor, u: Tensor, axis: int, times: int, a: int, j: int|
        a != axis && !t.repeat_interleave(axis, times).bad() && !u.repeat_interleave(axis, times).bad()
            && same(at, t, u, a, j) ==> #[trigger] same(
            at,
            t.repeat_interleave(axis, times),
            u.repeat_interleave(axis, times),
            a,
            j,
        )
    &&& forall|t: Tensor, c: Tensor, s: Tensor, u: Tensor, d: Tensor, r: Tensor, j: int|
        !t.rope_with_tables(c, s).bad() && !u.rope_with_tables(d, r).bad() && same(at, t, u, 2, j) && same(
            at,
            c,
            d,
            0,
            j,
        ) && same(at, s, r, 0, j) ==> #[trigger] same(
            at,
            t.rope_with_tables(c, s),
            u.rope_with_tables(d, r),
            2,
            j,
        )
    &&& forall|theta: Scalar, start: int, m: int, n: int, w: int, j: int|
        0 <= j < m && j < n ==> #[trigger] same(
            at,
            Tensor::rope_cos(theta, start, m, w),
            Tensor::rope_cos(theta, start, n, w),
            0,
            j,
        )
    &&& forall|theta: Scalar, start: int, m: int, n: int, w: int, j: int|
        0 <= j < m && j < n ==> #[trigger] same(
            at,
            Tensor::rope_sin(theta, start, m, w),
            Tensor::rope_sin(theta, start, n, w),
            0,
            j,
        )
}

/// Columns `from .. from + n` of a weight `[fan_in, fan_out]`.
pub open spec fn columns(w: Seq<Scalar>, fan_in: int, fan_out: int, from: int, n: int) -> Seq<Scalar> {
    Seq::new((fan_in * n) as nat, |k: int| w[(k / n) * fan_out + from + k % n])
}

/// A piece of the features that a map gives comes from the columns of that piece.
pub open spec fn picks_columns<V>(at: At<V>) -> bool {
    &&& forall|t: Tensor, w: Seq<Scalar>, i: int, o: int, from: int, n: int, v: Seq<Scalar>, j: int|
        t.rank() == 3 && v == columns(w, i, o, from, n) && !t.linear(w, i, o).narrow(2, from, n).bad()
            && !t.linear(v, i, n).bad() ==> #[trigger] same(
            at,
            t.linear(w, i, o).narrow(2, from, n),
            t.linear(v, i, n),
            1,
            j,
        )
    &&& forall|t: Tensor, b: Seq<Scalar>, d: Seq<int>, from: int, n: int, j: int|
        t.rank() == 3 && d == seq![b.len() as int] && t.dims[2] == b.len() && !t.broadcast_add(
            Tensor::constant(b, d),
        ).narrow(2, from, n).bad() ==> #[trigger] same(
            at,
            t.broadcast_add(Tensor::constant(b, d)).narrow(2, from, n),
            t.narrow(2, from, n).add_trailing_bias(b.subrange(from, from + n)),
            1,
            j,
        )
}

/// Pieces along an axis are picked and put side by side; pieces along other axes
/// keep the positions of this one.
pub open spec fn cuts<V>(at: At<V>) -> bool {
    &&& forall|t: Tensor, a: int, start: int, len: int, j: int|
        !t.narrow(a, start, len).bad() && 0 <= j < len ==> #[trigger] at(t.narrow(a, start, len), a, j)
            == at(t, a, start + j)
    &&& forall|t: Tensor, u: Tensor, axis: int, start: int, len: int, a: int, j: int|
        a != axis && !t.narrow(axis, start, len).bad() && !u.narrow(axis, start, len).bad() && same(
            at,
            t,
            u,
            a,
            j,
        ) ==> #[trigger] same(at, t.narrow(axis, start, len), u.narrow(axis, start, len), a, j)
    &&& forall|t: Tensor, u: Tensor, a: int, j: int|
        !t.concat(u, a).bad() ==> #[trigger] at(t.concat(u, a), a, j) == if j < t.dim(a) {
            at(t, a, j)
        } else {
            at(u, a, j - t.dim(a))
        }
    &&& forall|t: Tensor, v: Tensor, u: Tensor, w: Tensor, axis: int, a: int, j: int|
        a != axis && !t.concat(v, axis).bad() && !u.concat(w, axis).bad() && same(at, t, u, a, j) && same(
            at,
            v,
            w,
            a,
            j,
        ) ==> #[trigger] same(at, t.concat(v, axis), u.concat(w, axis), a, j)
}

/// Zeros in front do not depend on the signal; what is spread out is the same
/// everywhere.
pub open spec fn spreads<V>(at: At<V>) -> bool {
    &&& forall|t: Tensor, u: Tensor, left: int, j: int|
        t.rank() == 3 && u.rank() == 3 && !t.pad_with_zeros(2, left, 0).bad() && !u.pad_with_zeros(
            2,
            left,
            0,
        ).bad() && t.dims[0] == u.dims[0] && t.dims[1] == u.dims[1] && (j < left || same(at, t, u, 2, j - left)) ==> #[trigger] same(
            at,
            t.pad_with_zeros(2, left, 0),
            u.pad_with_zeros(2, left, 0),
            2,
            j,
        )
    &&& forall|t: Tensor, d: Seq<int>, a: int, j: int|
        !t.broadcast_to(d).bad() && 0 <= a < t.rank() && t.dims[a] == 1 && d == t.dims.update(a, d[a]) && 0
            <= j < d[a] ==> #[trigger] at(t.broadcast_to(d), a, j) == at(t, a, 0)
    &&& forall|t: Tensor, u: Tensor, d: Seq<int>, e: Seq<int>, a: int, j: int|
        0 <= a < t.rank() && t.rank() == u.rank() && d.len() == t.rank() && e.len() == u.rank()
            && t.dims.update(a, u.dims[a]) == u.dims && d.update(a, e[a]) == e && d[a] == t.dims[a] && e[a]
            == u.dims[a] && !t.broadcast_to(d).bad() && !u.broadcast_to(e).bad() && same(at, t, u, a, j)
            ==> #[trigger] same(at, t.broadcast_to(d), u.broadcast_to(e), a, j)
}

/// Row `j` of a table with rows of `w` elements.
pub open spec fn table_row(data: Seq<Scalar>, w: int, j: int) -> Seq<Scalar> {
    Seq::new(w as nat, |i: int| data[j * w + i])
}

/// The elements at time `j` of `channels` signals of length `n`.
pub open spec fn moment<T>(data: Seq<T>, channels: int, n: int, j: int) -> Seq<T> {
    Seq::new(channels as nat, |c: int| data[c * n + j])
}

/// A tensor of data holds the data in row-major order.
pub open spec fn holds_data<V>(at: At<V>) -> bool {
    &&& forall|c: Seq<u32>, e: Seq<u32>, j: int|
        0 <= j < c.len() && j < e.len() && c[j] == e[j] ==> #[trigger] same(
            at,
            Tensor::ids(c),
            Tensor::ids(e),
            0,
            j,
        )
    &&& forall|c: Seq<Scalar>, e: Seq<Scalar>, d: Seq<int>, f: Seq<int>, j: int|
        d.len() == 2 && f.len() == 2 && d[1] == f[1] && !Tensor::constant(c, d).bad() && !Tensor::constant(
            e,
            f,
        ).bad() && 0 <= j < d[0] && j < f[0] && table_row(c, d[1], j) == table_row(e, d[1], j)
            ==> #[trigger] same(at, Tensor::constant(c, d), Tensor::constant(e, f), 0, j)
    &&& forall|c: Seq<Scalar>, e: Seq<Scalar>, d: Seq<int>, f: Seq<int>, j: int|
        d.len() == 3 && f.len() == 3 && d[0] == 1 && f[0] == 1 && d[1] == f[1] && !Tensor::constant(
            c,
            d,
        ).bad() && !Tensor::constant(e, f).bad() && 0 <= j < d[2] && j < f[2] && moment(c, d[1], d[2], j)
            == moment(e, f[1], f[2], j) ==> #[trigger] same(
            at,
            Tensor::constant(c, d),
            Tensor::constant(e, f),
            2,
            j,
        )
    &&& forall|c: Seq<u32>, e: Seq<u32>, d: Seq<int>, f: Seq<int>, j: int|
        d.len() == 3 && f.len() == 3 && d[0] == 1 && f[0] == 1 && d[1] == f[1] && !Tensor::ids(c).reshape(
            d,
        ).bad() && !Tensor::ids(e).reshape(f).bad() && 0 <= j < d[2] && j < f[2] && moment(c, d[1], d[2], j)
            == moment(e, f[1], f[2], j) ==> #[trigger] same(
            at,
            Tensor::ids(c).reshape(d),
            Tensor::ids(e).reshape(f),
            2,
            j,
        )
}

/// A convolution reads the positions of its window; to a position of a transposed
/// convolution those contribute whose window it lies in.
pub open spec fn convolves<V>(at: At<V>) -> bool {
    &&& forall|t: Tensor, u: Tensor, w: Tensor, b: Option<Tensor>, stride: int, groups: int, j: int|
        !t.conv1d(w, b, stride, 0, groups).bad() && !u.conv1d(w, b, stride, 0, groups).bad() && (
        forall|i: int| 0 <= i < w.dim(2) ==> #[trigger] same(at, t, u, 2, j * stride + i)) ==> #[trigger] same(
            at,
            t.conv1d(w, b, stride, 0, groups),
            u.conv1d(w, b, stride, 0, groups),
            2,
            j,
        )
    &&& forall|t: Tensor, u: Tensor, w: Tensor, stride: int, groups: int, j: int|
        !t.conv_transpose1d(w, stride, groups).bad() && !u.conv_transpose1d(w, stride, groups).bad() && 0 <= j
            && j < t.conv_transpose1d(w, stride, groups).dim(2) && j < u.conv_transpose1d(
            w,
            stride,
            groups,
        ).dim(2) && (forall|i: int|
            0 <= i && i * stride <= j < i * stride + w.dim(2) ==> #[trigger] same(at, t, u, 2, i))
            ==> #[trigger] same(
            at,
            t.conv_transpose1d(w, stride, groups),
            u.conv_transpose1d(w, stride, groups),
            2,
            j,
        )
}

/// A causal convolution reads the positions of its window; a scan goes over time
/// from the front.
pub open spec fn scans<V>(at: At<V>) -> bool {
    &&& forall|t: Tensor, u: Tensor, w: Tensor, b: Tensor, silu: bool, j: int|
        !t.causal_conv1d(w, b, silu).bad() && !u.causal_conv1d(w, b, silu).bad() && (forall|i: int|
            0 <= i < w.dim(2) ==> #[trigger] same(at, t, u, 2, j + i)) ==> #[trigger] same(
            at,
            t.causal_conv1d(w, b, silu),
            u.causal_conv1d(w, b, silu),
            2,
            j,
        )
    &&& forall|
        t: Tensor,
        d: Tensor,
        b: Tensor,
        c: Tensor,
        u: Tensor,
        e: Tensor,
        f: Tensor,
        g: Tensor,
        a: Tensor,
        softplus: bool,
        j: int,
    |
        !t.selective_scan(d, a, b, c, softplus).bad() && !u.selective_scan(e, a, f, g, softplus).bad() && 0
            <= j && agrees(at, t, u, 1, j + 1) && agrees(at, d, e, 1, j + 1) && agrees(at, b, f, 1, j + 1)
            && agrees(at, c, g, 1, j + 1) ==> #[trigger] same(
            at,
            t.selective_scan(d, a, b, c, softplus),
            u.selective_scan(e, a, f, g, softplus),
            1,
            j,
        )
    &&& forall|
        t: Tensor,
        d: Tensor,
        b: Tensor,
        c: Tensor,
        u: Tensor,
        e: Tensor,
        f: Tensor,
        g: Tensor,
        a: Tensor,
        chunk: int,
        j: int,
    |
        !t.ssd_chunk_scan(d, a, b, c, chunk).bad() && !u.ssd_chunk_scan(e, a, f, g, chunk).bad() && 0 <= j
            && agrees(at, t, u, 1, j + 1) && agrees(at, d, e, 1, j + 1) && agrees(at, b, f, 1, j + 1) && agrees(
            at,
            c,
            g,
            1,
            j + 1,
        ) ==> #[trigger] same(
            at,
            t.ssd_chunk_scan(d, a, b, c, chunk),
            u.ssd_chunk_scan(e, a, f, g, chunk),
            1,
            j,
        )
}

/// Masked attention of queries, keys and values `(n, time, width)`.
pub open spec fn mixed(q: Tensor, k: Tensor, v: Tensor, scale: Scalar) -> Tensor {
    let n = q.dim(0);
    let t = q.dim(1);
    let hidden = Tensor::constant(causal_data(t), seq![t, t]).reshape(seq![1, t, t]).broadcast_to(
        seq![n, t, t],
    );
    q.matmul(k.permute(seq![0, 2, 1])).mul_scalar(scale).add(hidden).softmax_last_dim().matmul(v)
}

/// Masked attention of queries, keys and values `(batch, heads, time, width)`.
pub open spec fn mixed_heads(q: Tensor, k: Tensor, v: Tensor, scale: Option<Scalar>, mask: Tensor) -> Tensor {
    let scores = q.matmul(k.transpose());
    let scaled = match scale {
        None => scores,
        Some(s) => scores.mul_scalar(s),
    };
    scaled.broadcast_add(mask).softmax_last_dim().matmul(v)
}

/// In the masks of `g` heads over `t` and over `u` positions, row `j` is the same
/// up to column `j` and hides every later one.
pub open spec fn rows_look_back(c: Seq<Scalar>, e: Seq<Scalar>, g: int, t: int, u: int, j: int) -> bool {
    &&& 0 <= j < t
    &&& j < u
    &&& forall|h: int, i: int|
        0 <= h < g && 0 <= i <= j ==> #[trigger] mask_at(c, t, h, j, i) == mask_at(e, u, h, j, i)
    &&& forall|h: int, i: int|
        0 <= h < g && j < i < t ==> #[trigger] mask_at(c, t, h, j, i) == neg_inf()
    &&& forall|h: int, i: int|
        0 <= h < g && j < i < u ==> #[trigger] mask_at(e, u, h, j, i) == neg_inf()
}

/// Element `(h, j, i)` of a mask over `t` positions.
pub open spec fn mask_at(c: Seq<Scalar>, t: int, h: int, j: int, i: int) -> Scalar {
    c[(h * t + j) * t + i]
}

/// Two masks let row `j` look back in the same way, and hide what follows it.
pub open spec fn look_back(m: Tensor, n: Tensor, j: int) -> bool {
    ||| exists|c: Seq<Scalar>, e: Seq<Scalar>, g: int, t: int, u: int|
        m == Tensor::constant(c, seq![1, g, t, t]) && n == Tensor::constant(e, seq![1, g, u, u])
            && #[trigger] rows_look_back(c, e, g, t, u, j)
    ||| exists|t: int, u: int|
        0 <= j < t && j < u && m == #[trigger] causal_heads(t) && n == #[trigger] causal_heads(u)
}

/// The built-in causal mask, for all heads.
pub open spec fn causal_heads(t: int) -> Tensor {
    Tensor::causal_mask(t).reshape(seq![1, 1, t, t])
}

/// A mask over `t` positions, for all heads.
pub open spec fn square_mask(c: Seq<Scalar>, t: int) -> Tensor {
    Tensor::constant(c, seq![t, t]).reshape(seq![1, 1, t, t])
}

/// Whether row `j` of a mask over `t` positions sees column `i`.
pub open spec fn sees(c: Seq<Scalar>, t: int, j: int, i: int) -> bool {
    c[j * t + i] != neg_inf()
}

/// A mask over `t` positions that is stored with its leading axes.
pub open spec fn flat_mask(c: Seq<Scalar>, t: int) -> Tensor {
    Tensor::constant(c, seq![1, 1, t, t])
}

/// A position attends to the positions that a mask lets it see, its own among
/// them.
pub open spec fn attends_where_seen<V>(at: At<V>) -> bool {
    &&& forall|
        q: Tensor,
        k: Tensor,
        v: Tensor,
        x: Tensor,
        y: Tensor,
        z: Tensor,
        s: Option<Scalar>,
        c: Seq<Scalar>,
        t: int,
        j: int,
    |
        !mixed_heads(q, k, v, s, square_mask(c, t)).bad() && !mixed_heads(x, y, z, s, square_mask(c, t)).bad()
            && seen_alike(at, q, k, v, x, y, z, c, t, j) ==> #[trigger] same(
            at,
            mixed_heads(q, k, v, s, square_mask(c, t)),
            mixed_heads(x, y, z, s, square_mask(c, t)),
            2,
            j,
        )
    &&& forall|
        q: Tensor,
        k: Tensor,
        v: Tensor,
        x: Tensor,
        y: Tensor,
        z: Tensor,
        s: Option<Scalar>,
        c: Seq<Scalar>,
        t: int,
        j: int,
    |
        !mixed_heads(q, k, v, s, flat_mask(c, t)).bad() && !mixed_heads(x, y, z, s, flat_mask(c, t)).bad()
            && seen_alike(at, q, k, v, x, y, z, c, t, j) ==> #[trigger] same(
            at,
            mixed_heads(q, k, v, s, flat_mask(c, t)),
            mixed_heads(x, y, z, s, flat_mask(c, t)),
            2,
            j,
        )
}

/// Row `j` sees itself, and all that it sees is the same.
pub open spec fn seen_alike<V>(
    at: At<V>,
    q: Tensor,
    k: Tensor,
    v: Tensor,
    x: Tensor,
    y: Tensor,
    z: Tensor,
    c: Seq<Scalar>,
    t: int,
    j: int,
) -> bool {
    &&& 0 <= j < t
    &&& sees(c, t, j, j)
    &&& same(at, q, x, 2, j)
    &&& forall|i: int|
        0 <= i < t && #[trigger] sees(c, t, j, i) ==> same(at, k, y, 2, i) && same(at, v, z, 2, i)
}

/// A position attends to the positions up to its own: a mask leaves no weight on
/// those that it hides.
pub open spec fn attends_backwards<V>(at: At<V>) -> bool {
    &&& forall|q: Tensor, k: Tensor, v: Tensor, x: Tensor, y: Tensor, z: Tensor, s: Scalar, j: int|
        !mixed(q, k, v, s).bad() && !mixed(x, y, z, s).bad() && 0 <= j && same(at, q, x, 1, j) && agrees(
            at,
            k,
            y,
            1,
            j + 1,
        ) && agrees(at, v, z, 1, j + 1) ==> #[trigger] same(at, mixed(q, k, v, s), mixed(x, y, z, s), 1, j)
    &&& forall|
        q: Tensor,
        k: Tensor,
        v: Tensor,
        x: Tensor,
        y: Tensor,
        z: Tensor,
        s: Option<Scalar>,
        m: Tensor,
        n: Tensor,
        j: int,
    |
        !mixed_heads(q, k, v, s, m).bad() && !mixed_heads(x, y, z, s, n).bad() && 0 <= j && same(
            at,
            q,
            x,
            2,
            j,
        ) && agrees(at, k, y, 2, j + 1) && agrees(at, v, z, 2, j + 1) && look_back(m, n, j)
            ==> #[trigger] same(at, mixed_heads(q, k, v, s, m), mixed_heads(x, y, z, s, n), 2, j)
}

/// The evaluation follows the meaning of the operations.
pub open spec fn lawful<V>(at: At<V>) -> bool {
    &&& activates(at)
    &&& combines(at)
    &&& maps_rows(at)
    &&& reshapes(at)
    &&& handles_heads(at)
    &&& picks_columns(at)
    &&& cuts(at)
    &&& spreads(at)
    &&& holds_data(at)
    &&& convolves(at)
    &&& scans(at)
    &&& attends_where_seen(at)
    &&& attends_backwards(at)
}

/// The value of an element of a tensor, given by its indices.
pub type Element<V> = spec_fn(Tensor, Seq<int>) -> V;

/// The place of the element `i` of a tensor with the extents `d`, in row-major
/// order.
pub open spec fn place(i: Seq<int>, d: Seq<int>) -> int
    decreases i.len(),
{
    if i.len() == 0 {
        0
    } else {
        place(i.drop_last(), d.drop_last()) * d.last() + i.last()
    }
}

/// The indices lie within the extents.
pub open spec fn inside(i: Seq<int>, d: Seq<int>) -> bool {
    &&& i.len() == d.len()
    &&& forall|k: int| 0 <= k < i.len() ==> 0 <= #[trigger] i[k] < d[k]
}

/// Reshaping keeps every element at its place; a permutation of the axes permutes
/// the indices.
pub open spec fn rearranges<V>(value: Element<V>) -> bool {
    &&& forall|t: Tensor, d: Seq<int>, i: Seq<int>, k: Seq<int>|
        #![trigger value(t.reshape(d), k), value(t, i)]
        !t.reshape(d).bad() && inside(i, t.dims) && inside(k, d) && place(i, t.dims) == place(k, d)
            ==> value(t.reshape(d), k) == value(t, i)
    &&& forall|t: Tensor, p: Seq<int>, i: Seq<int>, k: Seq<int>|
        #![trigger value(t.permute(p), k), value(t, i)]
        !t.permute(p).bad() && inside(i, t.dims) && k.len() == i.len() && (forall|a: int|
            0 <= a < k.len() ==> #[trigger] k[a] == i[p[a]]) ==> value(t.permute(p), k) == value(t, i)
}

/// Places of elements with three to six indices.
pub proof fn places(a: int, b: int, c: int, d: int, e: int, f: int, x: Seq<int>)
    requires
        x.len() == 6,
    ensures
        place(seq![a, b, c], x.take(3)) == (a * x[1] + b) * x[2] + c,
        place(seq![a, b, c, d], x.take(4)) == ((a * x[1] + b) * x[2] + c) * x[3] + d,
        place(seq![a, b, c, d, e, f], x) == ((((a * x[1] + b) * x[2] + c) * x[3] + d) * x[4] + e) * x[5] + f,
{
    reveal_with_fuel(place, 7);
    let s = seq![a, b, c, d, e, f];
    assert(s.drop_last() =~= seq![a, b, c, d, e]);
    assert(seq![a, b, c, d, e].drop_last() =~= seq![a, b, c, d]);
    assert(seq![a, b, c, d].drop_last() =~= seq![a, b, c]);
    assert(seq![a, b, c].drop_last() =~= seq![a, b]);
    assert(seq![a, b].drop_last() =~= seq![a]);
    assert(seq![a].drop_last() =~= Seq::<int>::empty());
    assert(x.drop_last() =~= x.take(5));
    assert(x.take(5).drop_last() =~= x.take(4));
    assert(x.take(4).drop_last() =~= x.take(3));
    assert(x.take(3).drop_last() =~= x.take(2));
    assert(x.take(2).drop_last() =~= x.take(1));
}

} // verus!
