//! Running a convolution chunk by chunk gives what running it at once gives.
//!
//! A signal `(batch, channels, time)` is compared position by position. The
//! value of a tensor at one time position, over all batches and channels, is a
//! [`Column`]; [`column`] says how the operations on the time axis act on
//! columns.

use crate::error::Error;
use crate::lazy::{Op, Tensor, Term};
use crate::lazy_mimi_conv::{
    edge, padded, LazyPadMode, StreamConv1dState, StreamState, StreamableConv1dWeights,
};
use crate::shape::{fits, product};
use vstd::prelude::*;

verus! {

/// The value of a signal at one time position.
pub ghost enum Column {
    /// Padding.
    Zero,
    /// Position of a tensor that is not taken apart.
    At(Tensor, int),
    /// A kernel applied to the positions of one window.
    Frame { kernel: Tensor, bias: Option<Tensor>, groups: int, window: Seq<Column> },
}

/// The value of `t` at time `j`.
pub open spec fn column(t: Tensor, j: int) -> Column
    decreases t,
{
    match t.term {
        Term::Un(Op::Narrow(axis, start, len), a) => if axis == 2 {
            column(*a, start + j)
        } else {
            Column::At(t, j)
        },
        Term::Un(Op::Pad(axis, left, right), a) => if axis == 2 {
            if left <= j < left + a.dims[2] {
                column(*a, j - left)
            } else {
                Column::Zero
            }
        } else {
            Column::At(t, j)
        },
        Term::Un(Op::BroadcastTo, a) => if a.dims == t.dims.update(2, 1) {
            column(*a, 0)
        } else {
            Column::At(t, j)
        },
        Term::Bin(Op::Concat(axis), a, b) => if axis == 2 {
            if j < a.dims[2] {
                column(*a, j)
            } else {
                column(*b, j - a.dims[2])
            }
        } else {
            Column::At(t, j)
        },
        Term::Bin(Op::Conv1d(stride, pad, groups), x, w) => if pad == 0 {
            Column::Frame {
                kernel: *w,
                bias: None,
                groups,
                window: Seq::new(w.dims[2] as nat, |i: int| column(*x, j * stride + i)),
            }
        } else {
            Column::At(t, j)
        },
        Term::Tri(Op::Conv1d(stride, pad, groups), x, w, b) => if pad == 0 {
            Column::Frame {
                kernel: *w,
                bias: Some(*b),
                groups,
                window: Seq::new(w.dims[2] as nat, |i: int| column(*x, j * stride + i)),
            }
        } else {
            Column::At(t, j)
        },
        _ => Column::At(t, j),
    }
}

/// The values of `t` at all its time positions.
pub open spec fn columns(t: Tensor) -> Seq<Column> {
    Seq::new(t.dim(2) as nat, |j: int| column(t, j))
}

/// Whether `t` is a signal `(batch, channels, length)`.
pub open spec fn is_signal(t: Tensor, batch: int, channels: int, length: int) -> bool {
    &&& !t.bad()
    &&& t.dims == seq![batch, channels, length]
    &&& length >= 0
}

pub proof fn narrow_columns(t: Tensor, b: int, c: int, l: int, start: int, len: int)
    requires
        is_signal(t, b, c, l),
        0 <= start,
        0 <= len,
        start + len <= l,
    ensures
        is_signal(t.narrow(2, start, len), b, c, len),
        columns(t.narrow(2, start, len)) == columns(t).subrange(start, start + len),
{
    reveal(Tensor::narrow);
    let r = t.narrow(2, start, len);
    assert(r.dims =~= seq![b, c, len]);
    assert forall|j: int| 0 <= j < len implies column(r, j) == columns(t).subrange(
        start,
        start + len,
    )[j] by {
        assert(column(r, j) == column(t, start + j));
    }
    assert(columns(r) =~= columns(t).subrange(start, start + len));
}

pub proof fn concat_columns(t: Tensor, u: Tensor, b: int, c: int, l: int, m: int)
    requires
        is_signal(t, b, c, l),
        is_signal(u, b, c, m),
        l + m <= usize::MAX,
    ensures
        is_signal(t.concat(u, 2), b, c, l + m),
        columns(t.concat(u, 2)) == columns(t) + columns(u),
{
    reveal(Tensor::concat);
    let r = t.concat(u, 2);
    assert(t.dims.update(2, 0) =~= u.dims.update(2, 0));
    assert(r.dims =~= seq![b, c, l + m]);
    assert(columns(r) =~= columns(t) + columns(u));
}

pub proof fn zero_pad_columns(t: Tensor, b: int, c: int, l: int, left: int, right: int)
    requires
        is_signal(t, b, c, l),
        0 <= left,
        0 <= right,
        l + left + right <= usize::MAX,
    ensures
        is_signal(t.pad_with_zeros(2, left, right), b, c, left + l + right),
        columns(t.pad_with_zeros(2, left, right)) == Seq::new(left as nat, |i: int| Column::Zero)
            + columns(t) + Seq::new(right as nat, |i: int| Column::Zero),
{
    reveal(Tensor::pad_with_zeros);
    let r = t.pad_with_zeros(2, left, right);
    assert(r.dims =~= seq![b, c, left + l + right]);
    assert(columns(r) =~= Seq::new(left as nat, |i: int| Column::Zero) + columns(t) + Seq::new(
        right as nat,
        |i: int| Column::Zero,
    ));
}

proof fn edge_columns(t: Tensor, b: int, c: int, l: int, at: int, times: int)
    requires
        is_signal(t, b, c, l),
        0 <= at < l,
        0 <= times,
    ensures
        is_signal(edge(t, at, times), b, c, times),
        columns(edge(t, at, times)) == Seq::new(times as nat, |i: int| columns(t)[at]),
{
    reveal(Tensor::broadcast_to);
    narrow_columns(t, b, c, l, at, 1);
    let n = t.narrow(2, at, 1);
    let r = edge(t, at, times);
    assert(r.dims =~= seq![b, c, times]);
    assert(n.dims =~= r.dims.update(2, 1));
    assert(columns(n)[0] == columns(t)[at]);
    assert forall|j: int| 0 <= j < times implies column(r, j) == columns(t)[at] by {
        assert(column(r, j) == column(n, 0));
    }
    assert(columns(r) =~= Seq::new(times as nat, |i: int| columns(t)[at]));
}

/// What stands beyond an edge of a padded signal.
pub open spec fn beyond(mode: LazyPadMode, value: Column) -> Column {
    match mode {
        LazyPadMode::Constant => Column::Zero,
        LazyPadMode::Replicate => value,
    }
}

/// A signal after `n` positions of padding on the left.
pub open spec fn led(x: Seq<Column>, n: int, mode: LazyPadMode) -> Seq<Column> {
    Seq::new(n as nat, |i: int| beyond(mode, x[0])) + x
}

/// A padded signal starts with its left padding and the signal itself.
pub proof fn padded_columns(
    t: Tensor,
    b: int,
    c: int,
    l: int,
    left: int,
    right: int,
    mode: LazyPadMode,
)
    requires
        is_signal(t, b, c, l),
        0 <= left,
        0 <= right,
        l + left + right <= usize::MAX,
        mode == LazyPadMode::Replicate ==> l > 0,
    ensures
        is_signal(padded(t, left, right, mode), b, c, left + l + right),
        columns(padded(t, left, right, mode)).take(left + l) == led(columns(t), left, mode),
{
    let p = padded(t, left, right, mode);
    if left == 0 && right == 0 {
        assert(columns(t).take(l) =~= led(columns(t), 0, mode));
    } else if mode == LazyPadMode::Constant {
        zero_pad_columns(t, b, c, l, left, right);
        assert(columns(p).take(left + l) =~= led(columns(t), left, mode));
    } else {
        let a = if left > 0 {
            edge(t, 0, left).concat(t, 2)
        } else {
            t
        };
        if left > 0 {
            edge_columns(t, b, c, l, 0, left);
            concat_columns(edge(t, 0, left), t, b, c, left, l);
        }
        assert(is_signal(a, b, c, left + l));
        assert(columns(a) =~= led(columns(t), left, mode));
        if right > 0 {
            edge_columns(t, b, c, l, l - 1, right);
            concat_columns(a, edge(t, l - 1, right), b, c, left + l, right);
        }
        assert(columns(p).take(left + l) =~= columns(a));
    }
}

/// Frame `i` of the padded signal `p`.
pub open spec fn frame(w: &StreamableConv1dWeights, p: Seq<Column>, i: int) -> Column {
    Column::Frame {
        kernel: w.kernel(),
        bias: w.bias_value(),
        groups: w.groups as int,
        window: p.subrange(i * w.stride, i * w.stride + w.kernel_size),
    }
}

/// The sizes of the layer agree with each other, and its groups divide its
/// channels evenly.
pub open spec fn well_grouped(w: &StreamableConv1dWeights) -> bool {
    w.valid() && w.out_channels % w.groups == 0
}

/// The kernel of a well-declared layer is a tensor.
proof fn kernel_is_tensor(w: &StreamableConv1dWeights)
    requires
        well_grouped(w),
    ensures
        !w.kernel().bad(),
        w.kernel().dims == seq![
            w.out_channels as int,
            w.in_channels as int / w.groups as int,
            w.kernel_size as int,
        ],
        w.bias_value() matches Some(b) ==> !b.bad() && b.dims == seq![w.out_channels as int],
{
    reveal(Tensor::constant);
    let a = w.out_channels as int;
    let b = w.in_channels as int / w.groups as int;
    let c = w.kernel_size as int;
    product3(a, b, c);
    assert(b >= 1) by (nonlinear_arith)
        requires
            b == w.in_channels as int / w.groups as int,
            w.groups > 0,
            w.in_channels > 0,
            w.in_channels as int % w.groups as int == 0,
    ;
    assert(w.weight@.len() == w.weight.len());
    fits3(a, b, c);
    product1(a);
}

/// Number of elements under one extent.
pub proof fn product1(a: int)
    requires
        0 <= a <= usize::MAX,
    ensures
        product(seq![a]) == a,
        fits(seq![a]),
{
    assert(seq![a].drop_last() =~= Seq::<int>::empty());
    assert(product(Seq::<int>::empty()) == 1);
    assert(product(seq![a]) == 1 * a);
    assert(fits(Seq::<int>::empty()));
}

/// Number of elements under three extents.
pub proof fn product3(a: int, b: int, c: int)
    ensures
        product(seq![a, b, c]) == a * b * c,
{
    assert(seq![a, b, c].drop_last() =~= seq![a, b]);
    assert(seq![a, b].drop_last() =~= seq![a]);
    assert(seq![a].drop_last() =~= Seq::<int>::empty());
    assert(product(Seq::<int>::empty()) == 1);
    assert(product(seq![a]) == 1 * a);
    assert(product(seq![a, b]) == a * b);
}

proof fn fits3(a: int, b: int, c: int)
    requires
        a >= 1,
        b >= 1,
        c >= 1,
        a * b * c <= usize::MAX,
    ensures
        fits(seq![a, b, c]),
{
    product3(a, b, c);
    assert(seq![a, b, c].drop_last() =~= seq![a, b]);
    assert(seq![a, b].drop_last() =~= seq![a]);
    assert(seq![a].drop_last() =~= Seq::<int>::empty());
    assert(product(Seq::<int>::empty()) == 1);
    assert(product(seq![a]) == 1 * a);
    assert(product(seq![a, b]) == a * b);
    assert(a <= a * b && a * b <= a * b * c) by (nonlinear_arith)
        requires
            a >= 1,
            b >= 1,
            c >= 1,
    ;
    assert(fits(Seq::<int>::empty()));
    assert(fits(seq![a]));
    assert(fits(seq![a, b]));
}

/// A convolved signal consists of the frames of the signal.
proof fn convolved_columns(w: &StreamableConv1dWeights, t: Tensor, b: int, l: int, n: int)
    requires
        well_grouped(w),
        is_signal(t, b, w.in_channels as int, l),
        n >= 1,
        l == (n - 1) * w.stride + w.kernel_size,
        l <= usize::MAX,
    ensures
        is_signal(w.convolved(t), b, w.out_channels as int, n),
        columns(w.convolved(t)) == Seq::new(n as nat, |i: int| frame(w, columns(t), i)),
{
    reveal(Tensor::conv1d);
    kernel_is_tensor(w);
    let g = w.groups as int;
    let s = w.stride as int;
    let k = w.kernel_size as int;
    assert(w.in_channels == w.in_channels as int / g * g) by (nonlinear_arith)
        requires
            g > 0,
            w.in_channels as int % g == 0,
    ;
    assert((l - k) / s + 1 == n) by (nonlinear_arith)
        requires
            l - k == (n - 1) * s,
            s > 0,
    ;
    assert(n <= l) by (nonlinear_arith)
        requires
            l == (n - 1) * s + k,
            s >= 1,
            k >= 1,
            n >= 1,
    ;
    let r = w.convolved(t);
    assert(r.dims =~= seq![b, w.out_channels as int, n]);
    assert forall|j: int| 0 <= j < n implies column(r, j) == frame(w, columns(t), j) by {
        assert(0 <= j * s && j * s + k <= l) by (nonlinear_arith)
            requires
                0 <= j <= n - 1,
                s >= 1,
                l == (n - 1) * s + k,
        ;
        assert(column(r, j)->window =~= columns(t).subrange(j * s, j * s + k));
    }
    assert(columns(r) =~= Seq::new(n as nat, |i: int| frame(w, columns(t), i)));
}

/// The columns of an optional piece of output.
pub open spec fn emitted(y: Option<Tensor>) -> Seq<Column> {
    match y {
        None => seq![],
        Some(t) => columns(t),
    }
}

/// The state and the output after all the chunks of a stream.
pub open spec fn stream(w: &StreamableConv1dWeights, chunks: Seq<Tensor>) -> Result<
    (StreamState, Seq<Column>),
    Error,
>
    decreases chunks.len(),
{
    if chunks.len() == 0 {
        Ok((StreamConv1dState::start(), seq![]))
    } else {
        match stream(w, chunks.drop_last()) {
            Err(e) => Err(e),
            Ok((st, ys)) => match w.step_value(st, chunks.last()) {
                Err(e) => Err(e),
                Ok((next, y)) => Ok((next, ys + emitted(y))),
            },
        }
    }
}

/// The signal that the chunks make up.
pub open spec fn joined(chunks: Seq<Tensor>) -> Seq<Column>
    decreases chunks.len(),
{
    if chunks.len() == 0 {
        seq![]
    } else {
        joined(chunks.drop_last()) + columns(chunks.last())
    }
}

/// Whether the chunks are pieces of one signal that the layer accepts. A layer
/// that repeats the edge needs an edge in the first chunk.
pub open spec fn are_chunks(w: &StreamableConv1dWeights, chunks: Seq<Tensor>, batch: int) -> bool {
    &&& forall|i: int|
        0 <= i < chunks.len() ==> is_signal(
            #[trigger] chunks[i],
            batch,
            w.in_channels as int,
            chunks[i].dim(2),
        )
    &&& chunks.len() > 0 && w.pad_mode == LazyPadMode::Replicate ==> chunks[0].dim(2) > 0
    &&& w.context() + joined(chunks).len() <= usize::MAX
}

/// Where a stream stands after the signal `x`: all frames of `x` are out, and
/// the rest of the padded signal is kept.
pub open spec fn stands_after(
    w: &StreamableConv1dWeights,
    x: Seq<Column>,
    batch: int,
    st: StreamState,
    ys: Seq<Column>,
) -> bool {
    let p = led(x, w.context(), w.pad_mode);
    let n = x.len() as int / w.stride as int;
    &&& st.left_pad_applied
    &&& st.buf matches Some(buf) && {
        &&& is_signal(buf, batch, w.in_channels as int, p.len() - n * w.stride)
        &&& columns(buf) == p.subrange(n * w.stride, p.len() as int)
    }
    &&& ys == Seq::new(n as nat, |i: int| frame(w, p, i))
}

proof fn frames_fit(w: &StreamableConv1dWeights, t: int)
    requires
        w.valid(),
        t >= 0,
    ensures
        t / w.stride as int >= 0,
        0 <= (t / w.stride as int) * w.stride <= t,
        t - (t / w.stride as int) * w.stride < w.stride,
{
    let s = w.stride as int;
    assert(t / s >= 0 && 0 <= (t / s) * s <= t && t - (t / s) * s < s) by (nonlinear_arith)
        requires
            t >= 0,
            s > 0,
    ;
}

/// One more chunk.
proof fn step_stands(
    w: &StreamableConv1dWeights,
    x: Seq<Column>,
    batch: int,
    st: StreamState,
    ys: Seq<Column>,
    chunk: Tensor,
    started: bool,
)
    requires
        well_grouped(w),
        is_signal(chunk, batch, w.in_channels as int, chunk.dim(2)),
        w.context() + x.len() + chunk.dim(2) <= usize::MAX,
        started ==> stands_after(w, x, batch, st, ys),
        !started ==> x.len() == 0 && st == StreamConv1dState::start() && ys.len() == 0,
        !started && w.pad_mode == LazyPadMode::Replicate ==> chunk.dim(2) > 0,
        started && w.pad_mode == LazyPadMode::Replicate ==> x.len() > 0,
    ensures
        w.step_value(st, chunk) matches Ok((next, y)) && stands_after(
            w,
            x + columns(chunk),
            batch,
            next,
            ys + emitted(y),
        ),
{
    let c_in = w.in_channels as int;
    let s = w.stride as int;
    let k = w.kernel_size as int;
    let ctx = w.context();
    let l = chunk.dim(2);
    let x2 = x + columns(chunk);
    let p = led(x, ctx, w.pad_mode);
    let p2 = led(x2, ctx, w.pad_mode);
    let n = if started { x.len() as int / s } else { 0 };
    let n2 = x2.len() as int / s;
    frames_fit(w, x.len() as int);
    frames_fit(w, x2.len() as int);
    let c = w.combined(st, chunk);
    if started {
        assert(x2[0] == x[0] || x.len() == 0);
        assert(p2 =~= p + columns(chunk));
        let buf = st.buf->Some_0;
        concat_columns(buf, chunk, batch, c_in, p.len() - n * s, l);
        assert(columns(c) =~= p2.subrange(n * s, p2.len() as int));
    } else {
        assert(x2 =~= columns(chunk));
        padded_columns(chunk, batch, c_in, l, ctx, 0, w.pad_mode);
        assert(columns(c).take(ctx + l) =~= columns(c));
        assert(columns(c) =~= p2.subrange(0, p2.len() as int));
        assert(n * s == 0) by (nonlinear_arith)
            requires
                n == 0,
        ;
    }
    let len = p2.len() - n * s;
    assert(is_signal(c, batch, c_in, len));
    assert(len - ctx == x2.len() - n * s);
    let m = w.frames(len);
    assert(m == n2 - n) by (nonlinear_arith)
        requires
            m == (x2.len() - n * s) / s,
            n2 == x2.len() as int / s,
            s > 0,
    ;
    assert(n2 * s == n * s + m * s) by (nonlinear_arith)
        requires
            n2 == n + m,
    ;
    let out = Seq::new(n2 as nat, |i: int| frame(w, p2, i));
    assert(ys =~= out.take(n)) by {
        assert forall|i: int| 0 <= i < n implies ys[i] == out[i] by {
            assert(0 <= i * s && i * s + k <= n * s + ctx) by (nonlinear_arith)
                requires
                    0 <= i <= n - 1,
                    s >= 1,
                    ctx == k - s,
            ;
            assert(p.subrange(i * s, i * s + k) =~= p2.subrange(i * s, i * s + k));
        }
    }
    if m == 0 {
        assert(emitted(None) =~= seq![]);
        assert(out.take(n) =~= out);
        assert(ys + emitted(None) =~= out);
    } else {
        assert((m - 1) * s + k == m * s + ctx) by (nonlinear_arith)
            requires
                ctx == k - s,
        ;
        assert(m >= 0) by (nonlinear_arith)
            requires
                m == (x2.len() - n * s) / s,
                x2.len() - n * s >= 0,
                s > 0,
        ;
        assert(m * s >= 0) by (nonlinear_arith)
            requires
                m >= 0,
                s >= 0,
        ;
        let il = (m - 1) * s + k;
        narrow_columns(c, batch, c_in, len, m * s, len - m * s);
        narrow_columns(c, batch, c_in, len, 0, il);
        let front = c.narrow(2, 0, il);
        convolved_columns(w, front, batch, il, m);
        let y = w.convolved(front);
        assert(columns(c.narrow(2, m * s, len - m * s)) =~= p2.subrange(n2 * s, p2.len() as int));
        assert forall|j: int| 0 <= j < m implies columns(y)[j] == out[n + j] by {
            assert(0 <= j * s && j * s + k <= il) by (nonlinear_arith)
                requires
                    0 <= j <= m - 1,
                    s >= 1,
                    il == (m - 1) * s + k,
            ;
            assert((n + j) * s == n * s + j * s) by (nonlinear_arith);
            assert(columns(front).subrange(j * s, j * s + k) =~= p2.subrange(
                (n + j) * s,
                (n + j) * s + k,
            ));
        }
        assert(ys + columns(y) =~= out);
    }
}

/// After every chunk, all frames of the signal so far are out.
pub proof fn stream_stands(w: &StreamableConv1dWeights, chunks: Seq<Tensor>, batch: int)
    requires
        well_grouped(w),
        are_chunks(w, chunks, batch),
    ensures
        stream(w, chunks) is Ok,
        chunks.len() > 0 ==> stands_after(
            w,
            joined(chunks),
            batch,
            stream(w, chunks)->Ok_0.0,
            stream(w, chunks)->Ok_0.1,
        ),
        chunks.len() > 0 && w.pad_mode == LazyPadMode::Replicate ==> joined(chunks).len() > 0,
    decreases chunks.len(),
{
    if chunks.len() > 0 {
        let before = chunks.drop_last();
        assert forall|i: int| 0 <= i < before.len() implies is_signal(
            #[trigger] before[i],
            batch,
            w.in_channels as int,
            before[i].dim(2),
        ) by {
            assert(before[i] == chunks[i]);
        }
        assert(is_signal(chunks[chunks.len() - 1], batch, w.in_channels as int, chunks.last().dim(2)));
        stream_stands(w, before, batch);
        let (st, ys) = stream(w, before)->Ok_0;
        step_stands(w, joined(before), batch, st, ys, chunks.last(), before.len() > 0);
    }
}

/// A causal convolution run chunk by chunk over a signal yields, in order, the
/// first `time / stride` frames of the one-shot run over the same signal: all
/// of them where the stride divides the length of the signal.
pub proof fn streaming_equals_one_shot(
    w: &StreamableConv1dWeights,
    x: Tensor,
    chunks: Seq<Tensor>,
    batch: int,
    time: int,
)
    requires
        well_grouped(w),
        w.causal,
        is_signal(x, batch, w.in_channels as int, time),
        time > 0,
        w.context() + time + w.stride <= usize::MAX,
        are_chunks(w, chunks, batch),
        joined(chunks) == columns(x),
    ensures
        stream(w, chunks) is Ok,
        !w.forward_value(x).bad(),
        stream(w, chunks)->Ok_0.1 == columns(w.forward_value(x)).take(time / w.stride as int),
        time % w.stride as int == 0 ==> stream(w, chunks)->Ok_0.1 == columns(w.forward_value(x)),
{
    stream_stands(w, chunks, batch);
    assert(chunks.len() > 0) by {
        if chunks.len() == 0 {
            assert(joined(chunks).len() == 0);
        }
    }
    let s = w.stride as int;
    let k = w.kernel_size as int;
    let ctx = w.context();
    let extra = w.missing(time);
    let n = time / s;
    frames_fit(w, time);
    assert(time % s == time - n * s) by (nonlinear_arith)
        requires
            s > 0,
            n == time / s,
    ;
    padded_columns(x, batch, w.in_channels as int, time, ctx, extra, w.pad_mode);
    let q = w.padded_signal(x);
    let m = if time % s == 0 { n } else { n + 1 };
    assert((n + 1) * s == n * s + s) by (nonlinear_arith);
    assert(m * s == time + extra);
    assert((m - 1) * s == m * s - s) by (nonlinear_arith);
    assert(m >= 1) by (nonlinear_arith)
        requires
            m * s == time + extra,
            time > 0,
            extra >= 0,
            s > 0,
    ;
    convolved_columns(w, q, batch, ctx + time + extra, m);
    let out = columns(w.forward_value(x));
    let ys = stream(w, chunks)->Ok_0.1;
    assert forall|i: int| 0 <= i < n implies ys[i] == out[i] by {
        assert(0 <= i * s && i * s + k <= n * s + ctx) by (nonlinear_arith)
            requires
                0 <= i <= n - 1,
                s >= 1,
                ctx == k - s,
        ;
        assert(columns(q).take(ctx + time).subrange(i * s, i * s + k) =~= columns(q).subrange(
            i * s,
            i * s + k,
        ));
    }
    assert(ys =~= out.take(n));
    if time % s == 0 {
        assert(out.take(n) =~= out);
    }
}

} // verus!
