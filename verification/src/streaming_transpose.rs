//! Running a transposed convolution chunk by chunk gives what running it at
//! once gives.
//!
//! The value of an upsampled signal at one time position is a sum of products
//! of input positions and kernel positions, plus a bias. [`Mix`] is that sum
//! with its terms kept apart, so that two sums are equal when they have the
//! same terms, in whatever order they were added.

use crate::error::Error;
use crate::lazy::{Op, Tensor, Term};
use crate::lazy_mimi_conv_transpose::StreamableConvTranspose1dWeights;
use crate::shape::{broadcast_rule, fits, product};
use crate::streaming::{columns, is_signal, product1, product3, Column};
use vstd::multiset::Multiset;
use vstd::prelude::*;

verus! {

/// One term of a sum.
pub ghost enum Tap {
    /// Input position times kernel position.
    Input { kernel: Tensor, groups: int, input: Column, offset: int },
    /// Position of a tensor that is not taken apart.
    At(Tensor, int),
}

/// A sum of terms, and how often the bias was added.
pub ghost struct Mix {
    pub taps: Multiset<Tap>,
    pub bias: int,
}

/// The terms that the first `n` positions of the input `x` contribute to output
/// position `j`: position `t` contributes where `0 <= j - t * stride < k`.
pub open spec fn reach(kernel: Tensor, groups: int, stride: int, x: Seq<Column>, n: int, j: int) -> Multiset<
    Tap,
>
    decreases n,
{
    if n <= 0 {
        Multiset::empty()
    } else {
        let rest = reach(kernel, groups, stride, x, n - 1, j);
        let offset = j - (n - 1) * stride;
        if 0 <= offset < kernel.dims[2] {
            rest.insert(Tap::Input { kernel, groups, input: x[n - 1], offset })
        } else {
            rest
        }
    }
}

/// The value of `t` at time `j`, where `bias` is the tensor that counts as the
/// bias.
pub open spec fn mix(bias: Tensor, t: Tensor, j: int) -> Mix
    decreases t,
{
    match t.term {
        Term::Un(Op::Narrow(axis, start, len), a) => if axis == 2 {
            mix(bias, *a, start + j)
        } else {
            opaque_mix(t, j)
        },
        Term::Bin(Op::Concat(axis), a, b) => if axis == 2 {
            if j < a.dims[2] {
                mix(bias, *a, j)
            } else {
                mix(bias, *b, j - a.dims[2])
            }
        } else {
            opaque_mix(t, j)
        },
        Term::Bin(Op::Add, a, b) => {
            let p = mix(bias, *a, j);
            let q = mix(bias, *b, j);
            Mix { taps: p.taps.add(q.taps), bias: p.bias + q.bias }
        },
        Term::Bin(Op::BroadcastAdd, a, b) => if *b == bias {
            let p = mix(bias, *a, j);
            Mix { taps: p.taps, bias: p.bias + 1 }
        } else {
            opaque_mix(t, j)
        },
        Term::Bin(Op::BroadcastSub, a, b) => if *b == bias {
            let p = mix(bias, *a, j);
            Mix { taps: p.taps, bias: p.bias - 1 }
        } else {
            opaque_mix(t, j)
        },
        Term::Bin(Op::ConvTranspose1d(stride, groups), x, w) => Mix {
            taps: reach(*w, groups, stride, columns(*x), x.dim(2), j),
            bias: 0,
        },
        _ => opaque_mix(t, j),
    }
}

/// A position that is not taken apart.
pub open spec fn opaque_mix(t: Tensor, j: int) -> Mix {
    Mix { taps: Multiset::singleton(Tap::At(t, j)), bias: 0 }
}

/// The values of `t` at all its time positions.
pub open spec fn mixes(bias: Tensor, t: Tensor) -> Seq<Mix> {
    Seq::new(t.dim(2) as nat, |j: int| mix(bias, t, j))
}

impl StreamableConvTranspose1dWeights {
    /// The tensor that the layer adds as its bias.
    pub open spec fn bias_tensor(&self) -> Tensor {
        match self.bias {
            None => Tensor::invalid(Error::Shape),
            Some(b) => self.bias_column(b@),
        }
    }

    /// How often an output position carries the bias.
    pub open spec fn bias_count(&self) -> int {
        if self.bias is None {
            0
        } else {
            1
        }
    }

    /// Output position `j` for the input `x`.
    pub open spec fn output(&self, x: Seq<Column>, j: int) -> Mix {
        Mix {
            taps: reach(
                self.kernel(),
                self.groups as int,
                self.stride as int,
                x,
                x.len() as int,
                j,
            ),
            bias: self.bias_count(),
        }
    }
}

/// The sizes of the layer agree with each other, its groups divide its channels
/// evenly, and no output position lies between two kernels.
pub open spec fn gapless(w: &StreamableConvTranspose1dWeights) -> bool {
    &&& w.valid()
    &&& w.in_channels % w.groups == 0
    &&& w.stride <= w.kernel_size
}

proof fn narrow_mixes(bias: Tensor, t: Tensor, b: int, c: int, l: int, start: int, len: int)
    requires
        is_signal(t, b, c, l),
        0 <= start,
        0 <= len,
        start + len <= l,
    ensures
        is_signal(t.narrow(2, start, len), b, c, len),
        mixes(bias, t.narrow(2, start, len)) == mixes(bias, t).subrange(start, start + len),
{
    reveal(Tensor::narrow);
    let r = t.narrow(2, start, len);
    assert(r.dims =~= seq![b, c, len]);
    assert forall|j: int| 0 <= j < len implies mix(bias, r, j) == mixes(bias, t).subrange(
        start,
        start + len,
    )[j] by {
        assert(mix(bias, r, j) == mix(bias, t, start + j));
    }
    assert(mixes(bias, r) =~= mixes(bias, t).subrange(start, start + len));
}

proof fn concat_mixes(bias: Tensor, t: Tensor, u: Tensor, b: int, c: int, l: int, m: int)
    requires
        is_signal(t, b, c, l),
        is_signal(u, b, c, m),
        l + m <= usize::MAX,
    ensures
        is_signal(t.concat(u, 2), b, c, l + m),
        mixes(bias, t.concat(u, 2)) == mixes(bias, t) + mixes(bias, u),
{
    reveal(Tensor::concat);
    let r = t.concat(u, 2);
    assert(t.dims.update(2, 0) =~= u.dims.update(2, 0));
    assert(r.dims =~= seq![b, c, l + m]);
    assert(mixes(bias, r) =~= mixes(bias, t) + mixes(bias, u));
}

proof fn bias_is_tensor(w: &StreamableConvTranspose1dWeights)
    requires
        w.valid(),
        w.bias is Some,
    ensures
        !w.bias_tensor().bad(),
        w.bias_tensor().dims == seq![1int, w.out_channels as int, 1],
{
    reveal(Tensor::constant);
    reveal(Tensor::reshape);
    let c = w.out_channels as int;
    product1(c);
    product3(1, c, 1);
    assert(seq![1int, c, 1].drop_last() =~= seq![1int, c]);
    assert(seq![1int, c].drop_last() =~= seq![1int]);
    product1(1);
    assert(product(seq![1int, c]) == 1 * c);
    assert(fits(seq![1int, c]));
    assert(1 * c * 1 == c);
}

/// A bias column stretches to the signal that it is added to.
proof fn column_stretches(b: int, c: int, l: int)
    ensures
        broadcast_rule(seq![b, c, l], seq![1int, c, 1]) == Some(seq![b, c, l]),
{
    let x = seq![b, c, l];
    let y = seq![1int, c, 1];
    let d = broadcast_rule(x, y);
    assert(d is Some);
    assert(d->Some_0 =~= x);
}

/// Adding the bias counts once more at every position.
proof fn biased_mixes(w: &StreamableConvTranspose1dWeights, t: Tensor, b: int, l: int)
    requires
        w.valid(),
        is_signal(t, b, w.out_channels as int, l),
    ensures
        is_signal(w.biased(t), b, w.out_channels as int, l),
        is_signal(w.unbiased(t), b, w.out_channels as int, l),
        forall|j: int|
            0 <= j < l ==> mix(w.bias_tensor(), w.biased(t), j) == (Mix {
                taps: mix(w.bias_tensor(), t, j).taps,
                bias: mix(w.bias_tensor(), t, j).bias + w.bias_count(),
            }),
        forall|j: int|
            0 <= j < l ==> mix(w.bias_tensor(), w.unbiased(t), j) == (Mix {
                taps: mix(w.bias_tensor(), t, j).taps,
                bias: mix(w.bias_tensor(), t, j).bias - w.bias_count(),
            }),
{
    reveal(Tensor::broadcast_add);
    reveal(Tensor::broadcast_sub);
    if w.bias is Some {
        bias_is_tensor(w);
        column_stretches(b, w.out_channels as int, l);
    }
}

/// The raw output of a chunk consists of the terms that its input contributes.
proof fn raw_mixes(w: &StreamableConvTranspose1dWeights, x: Tensor, b: int, l: int)
    requires
        gapless(w),
        is_signal(x, b, w.in_channels as int, l),
        l >= 1,
        l * w.stride + w.overlap() <= usize::MAX,
    ensures
        is_signal(w.raw(x), b, w.out_channels as int, l * w.stride + w.overlap()),
        mixes(w.bias_tensor(), w.raw(x)) == Seq::new(
            (l * w.stride + w.overlap()) as nat,
            |j: int| w.output(columns(x), j),
        ),
{
    reveal(Tensor::constant);
    reveal(Tensor::conv_transpose1d);
    let s = w.stride as int;
    let k = w.kernel_size as int;
    let g = w.groups as int;
    let c_out = w.out_channels as int;
    let a = w.in_channels as int;
    let o = c_out / g;
    assert(c_out == o * g && o >= 1) by (nonlinear_arith)
        requires
            g > 0,
            c_out % g == 0,
            c_out > 0,
            o == c_out / g,
    ;
    assert(w.weight@.len() == w.weight.len());
    kernel_fits(a, o, k);
    assert((l - 1) * s + k == l * s + w.overlap()) by (nonlinear_arith)
        requires
            w.overlap() == k - s,
    ;
    let y = x.conv_transpose1d(w.kernel(), s, g);
    let n = l * s + w.overlap();
    assert(y.dims =~= seq![b, c_out, n]);
    biased_mixes(w, y, b, n);
    assert forall|j: int| 0 <= j < n implies #[trigger] mix(w.bias_tensor(), w.raw(x), j) == w.output(
        columns(x),
        j,
    ) by {
        assert(mix(w.bias_tensor(), y, j) == (Mix {
            taps: reach(w.kernel(), g, s, columns(x), l, j),
            bias: 0,
        }));
    }
    assert(mixes(w.bias_tensor(), w.raw(x)) =~= Seq::new(n as nat, |j: int| w.output(columns(x), j)));
}

proof fn kernel_fits(a: int, b: int, c: int)
    requires
        a >= 1,
        b >= 1,
        c >= 1,
        a * b * c <= usize::MAX,
    ensures
        fits(seq![a, b, c]),
        product(seq![a, b, c]) == a * b * c,
{
    product3(a, b, c);
    assert(a <= a * b && a * b <= a * b * c) by (nonlinear_arith)
        requires
            a >= 1,
            b >= 1,
            c >= 1,
    ;
    assert(seq![a, b, c].drop_last() =~= seq![a, b]);
    assert(seq![a, b].drop_last() =~= seq![a]);
    product1(a);
    assert(product(seq![a, b]) == a * b);
    assert(fits(seq![a, b]));
}

/// Positions before the input and beyond its reach receive nothing.
proof fn reach_is_bounded(kernel: Tensor, groups: int, s: int, x: Seq<Column>, n: int, j: int)
    requires
        n >= 0,
        s > 0,
        j < 0 || j >= (n - 1) * s + kernel.dims[2],
    ensures
        reach(kernel, groups, s, x, n, j) == Multiset::<Tap>::empty(),
    decreases n,
{
    if n > 0 {
        assert((n - 2) * s + s == (n - 1) * s) by (nonlinear_arith);
        assert((n - 1) * s >= 0) by (nonlinear_arith)
            requires
                n >= 1,
                s > 0,
        ;
        reach_is_bounded(kernel, groups, s, x, n - 1, j);
    }
}

/// A longer input only adds terms.
proof fn reach_of_prefix(kernel: Tensor, groups: int, s: int, x: Seq<Column>, y: Seq<Column>, n: int, j: int)
    requires
        0 <= n <= x.len(),
    ensures
        reach(kernel, groups, s, x + y, n, j) == reach(kernel, groups, s, x, n, j),
    decreases n,
{
    if n > 0 {
        reach_of_prefix(kernel, groups, s, x, y, n - 1, j);
        assert((x + y)[n - 1] == x[n - 1]);
    }
}

/// The terms of a joined input are those of its first part and those of its
/// second part, which starts later.
proof fn reach_of_join(
    kernel: Tensor,
    groups: int,
    s: int,
    x: Seq<Column>,
    y: Seq<Column>,
    n: int,
    j: int,
)
    requires
        0 <= n <= y.len(),
    ensures
        reach(kernel, groups, s, x + y, x.len() + n, j) == reach(
            kernel,
            groups,
            s,
            x,
            x.len() as int,
            j,
        ).add(reach(kernel, groups, s, y, n, j - x.len() * s)),
    decreases n,
{
    let first = reach(kernel, groups, s, x, x.len() as int, j);
    if n == 0 {
        reach_of_prefix(kernel, groups, s, x, y, x.len() as int, j);
        assert(first.add(Multiset::<Tap>::empty()) =~= first);
    } else {
        reach_of_join(kernel, groups, s, x, y, n - 1, j);
        assert((x + y)[x.len() + n - 1] == y[n - 1]);
        assert((x.len() + n - 1) * s == x.len() * s + (n - 1) * s) by (nonlinear_arith);
        let rest = reach(kernel, groups, s, y, n - 1, j - x.len() * s);
        let tap = Tap::Input {
            kernel,
            groups,
            input: y[n - 1],
            offset: j - x.len() * s - (n - 1) * s,
        };
        assert(first.add(rest).insert(tap) =~= first.add(rest.insert(tap)));
    }
}

/// The terms of an output position for a joined input.
proof fn output_of_join(w: &StreamableConvTranspose1dWeights, x: Seq<Column>, y: Seq<Column>, j: int)
    ensures
        w.output(x + y, j).taps == w.output(x, j).taps.add(w.output(y, j - x.len() * w.stride).taps),
{
    reach_of_join(
        w.kernel(),
        w.groups as int,
        w.stride as int,
        x,
        y,
        y.len() as int,
        j,
    );
}

/// The output of all the chunks of a stream, and the positions kept at its end.
pub open spec fn transpose_stream(w: &StreamableConvTranspose1dWeights, chunks: Seq<Tensor>) -> Result<
    (Option<Tensor>, Seq<Mix>),
    Error,
>
    decreases chunks.len(),
{
    if chunks.len() == 0 {
        Ok((None, seq![]))
    } else {
        match transpose_stream(w, chunks.drop_last()) {
            Err(e) => Err(e),
            Ok((prev, ys)) => match w.step_value(prev, chunks.last()) {
                Err(e) => Err(e),
                Ok((next, y)) => Ok(
                    (
                        next,
                        ys + match y {
                            None => seq![],
                            Some(t) => mixes(w.bias_tensor(), t),
                        },
                    ),
                ),
            },
        }
    }
}

/// Where a stream stands after the input `x`: `x.len() * stride` positions are
/// out, and the positions that later input still contributes to are kept.
pub open spec fn upsampled(
    w: &StreamableConvTranspose1dWeights,
    x: Seq<Column>,
    batch: int,
    prev: Option<Tensor>,
    ys: Seq<Mix>,
) -> bool {
    let done = x.len() * w.stride;
    &&& ys == Seq::new(done as nat, |j: int| w.output(x, j))
    &&& match prev {
        None => w.overlap() == 0 || x.len() == 0,
        Some(p) => {
            &&& w.overlap() > 0
            &&& is_signal(p, batch, w.out_channels as int, w.overlap())
            &&& mixes(w.bias_tensor(), p) == Seq::new(
                w.overlap() as nat,
                |j: int| w.output(x, done + j),
            )
        },
    }
}

/// One more chunk.
#[verifier::rlimit(40)]
pub proof fn step_upsamples(
    w: &StreamableConvTranspose1dWeights,
    x: Seq<Column>,
    batch: int,
    prev: Option<Tensor>,
    ys: Seq<Mix>,
    chunk: Tensor,
)
    requires
        gapless(w),
        is_signal(chunk, batch, w.in_channels as int, chunk.dim(2)),
        chunk.dim(2) > 0,
        chunk.dim(2) * w.stride + w.overlap() <= usize::MAX,
        upsampled(w, x, batch, prev, ys),
    ensures
        w.step_value(prev, chunk) matches Ok((next, Some(y))) && upsampled(
            w,
            x + columns(chunk),
            batch,
            next,
            ys + mixes(w.bias_tensor(), y),
        ) && is_signal(y, batch, w.out_channels as int, chunk.dim(2) * w.stride),
{
    let bt = w.bias_tensor();
    let c = w.out_channels as int;
    let s = w.stride as int;
    let g = w.groups as int;
    let kern = w.kernel();
    let l = chunk.dim(2);
    let ov = w.overlap();
    let done = x.len() * s;
    let cc = columns(chunk);
    let x2 = x + cc;
    let raw = w.raw(chunk);
    let m = w.merged(prev, raw);
    let n = l * s + ov;
    reveal(Tensor::constant);
    raw_mixes(w, chunk, batch, l);
    assert(l * s >= 0) by (nonlinear_arith)
        requires
            l >= 0,
            s >= 0,
    ;
    assert((x.len() - 1) * s + w.kernel_size == done + ov) by (nonlinear_arith)
        requires
            ov == w.kernel_size - s,
            done == x.len() * s,
    ;
    assert(x2.len() * s == done + l * s) by (nonlinear_arith)
        requires
            x2.len() == x.len() + l,
            done == x.len() * s,
    ;
    assert(kern.dims[2] == w.kernel_size) by {
        kernel_dims(w);
    }
    assert(is_signal(m, batch, c, n) && mixes(bt, m) =~= Seq::new(
        n as nat,
        |j: int| w.output(x2, done + j),
    )) by {
        match prev {
            None => {
                assert forall|j: int| 0 <= j < n implies w.output(x2, done + j) == #[trigger] w.output(
                    cc,
                    j,
                ) by {
                    output_of_join(w, x, cc, done + j);
                    if x.len() > 0 {
                        reach_is_bounded(kern, g, s, x, x.len() as int, done + j);
                    }
                    assert(Multiset::<Tap>::empty().add(w.output(cc, j).taps) =~= w.output(cc, j).taps);
                }
            },
            Some(p) => {
                reveal(Tensor::add);
                biased_mixes(w, p, batch, ov);
                narrow_mixes(bt, raw, batch, c, n, 0, ov);
                narrow_mixes(bt, raw, batch, c, n, ov, n - ov);
                let front = raw.narrow(2, 0, ov);
                let head = front.add(w.unbiased(p));
                assert(is_signal(head, batch, c, ov));
                assert forall|j: int| 0 <= j < ov implies #[trigger] mix(bt, head, j) == w.output(
                    x2,
                    done + j,
                ) by {
                    output_of_join(w, x, cc, done + j);
                    assert(mixes(bt, front)[j] == mixes(bt, raw)[j]);
                    assert(mixes(bt, raw)[j] == w.output(cc, j));
                    assert(mixes(bt, p)[j] == w.output(x, done + j));
                    let a = mix(bt, front, j);
                    let b = mix(bt, w.unbiased(p), j);
                    assert(a == mixes(bt, front)[j]);
                    assert(mix(bt, p, j) == mixes(bt, p)[j]);
                    assert(mix(bt, head, j) == (Mix { taps: a.taps.add(b.taps), bias: a.bias + b.bias }));
                    assert(w.output(x, done + j).taps.add(w.output(cc, j).taps) =~= w.output(
                        cc,
                        j,
                    ).taps.add(w.output(x, done + j).taps));
                }
                concat_mixes(bt, head, raw.narrow(2, ov, n - ov), batch, c, ov, n - ov);
                assert forall|j: int| ov <= j < n implies w.output(x2, done + j) == #[trigger] w.output(
                    cc,
                    j,
                ) by {
                    output_of_join(w, x, cc, done + j);
                    reach_is_bounded(kern, g, s, x, x.len() as int, done + j);
                    assert(Multiset::<Tap>::empty().add(w.output(cc, j).taps) =~= w.output(cc, j).taps);
                }
            },
        }
    }
    narrow_mixes(bt, m, batch, c, n, 0, n - ov);
    narrow_mixes(bt, m, batch, c, n, n - ov, ov);
    let all = Seq::new((x2.len() * s) as nat, |j: int| w.output(x2, j));
    assert forall|j: int| 0 <= j < done implies #[trigger] w.output(x2, j) == w.output(x, j) by {
        let q = j - done;
        output_of_join(w, x, cc, j);
        reach_is_bounded(kern, g, s, cc, l, q);
        assert(w.output(x, j).taps.add(Multiset::<Tap>::empty()) =~= w.output(x, j).taps);
    }
    let y = if ov == 0 { m } else { m.narrow(2, 0, n - ov) };
    assert(mixes(bt, y) =~= Seq::new((l * s) as nat, |j: int| w.output(x2, done + j)));
    assert(ys + mixes(bt, y) =~= all);
    if ov > 0 {
        let keep = m.narrow(2, n - ov, ov);
        assert(mixes(bt, keep) =~= Seq::new(ov as nat, |j: int| w.output(x2, x2.len() * s + j)));
    }
}

proof fn kernel_dims(w: &StreamableConvTranspose1dWeights)
    requires
        gapless(w),
    ensures
        w.kernel().dims.len() == 3,
        w.kernel().dims[2] == w.kernel_size,
{
    reveal(Tensor::constant);
    let g = w.groups as int;
    let c_out = w.out_channels as int;
    assert(c_out / g >= 1) by (nonlinear_arith)
        requires
            g > 0,
            c_out % g == 0,
            c_out > 0,
    ;
    assert(w.weight@.len() == w.weight.len());
    kernel_fits(w.in_channels as int, c_out / g, w.kernel_size as int);
}

/// Whether the chunks are non-empty pieces of one signal that the layer
/// accepts.
pub open spec fn are_pieces(w: &StreamableConvTranspose1dWeights, chunks: Seq<Tensor>, batch: int) -> bool {
    &&& forall|i: int|
        0 <= i < chunks.len() ==> is_signal(
            #[trigger] chunks[i],
            batch,
            w.in_channels as int,
            chunks[i].dim(2),
        ) && chunks[i].dim(2) > 0
    &&& crate::streaming::joined(chunks).len() * w.stride + w.overlap() <= usize::MAX
}

/// After every chunk, all positions that no later input contributes to are out.
pub proof fn stream_upsamples(w: &StreamableConvTranspose1dWeights, chunks: Seq<Tensor>, batch: int)
    requires
        gapless(w),
        are_pieces(w, chunks, batch),
    ensures
        transpose_stream(w, chunks) matches Ok((prev, ys)) && upsampled(
            w,
            crate::streaming::joined(chunks),
            batch,
            prev,
            ys,
        ),
    decreases chunks.len(),
{
    let x = crate::streaming::joined(chunks);
    let s = w.stride as int;
    if chunks.len() == 0 {
        assert(x.len() * s == 0) by (nonlinear_arith)
            requires
                x.len() == 0,
        ;
        assert(Seq::<Mix>::empty() =~= Seq::new(0, |j: int| w.output(x, j)));
    } else {
        let before = chunks.drop_last();
        let xb = crate::streaming::joined(before);
        assert forall|i: int| 0 <= i < before.len() implies is_signal(
            #[trigger] before[i],
            batch,
            w.in_channels as int,
            before[i].dim(2),
        ) && before[i].dim(2) > 0 by {
            assert(before[i] == chunks[i]);
        }
        let last = chunks[chunks.len() - 1];
        assert(is_signal(last, batch, w.in_channels as int, last.dim(2)));
        assert(xb.len() * s + last.dim(2) * s == x.len() * s && xb.len() * s >= 0 && last.dim(2) * s
            >= 0) by (nonlinear_arith)
            requires
                x.len() == xb.len() + last.dim(2),
                last.dim(2) >= 0,
                s >= 0,
        ;
        stream_upsamples(w, before, batch);
        let (prev, ys) = transpose_stream(w, before)->Ok_0;
        step_upsamples(w, xb, batch, prev, ys, last);
    }
}

/// A causal transposed convolution run chunk by chunk over a signal yields, in
/// order, exactly the positions of the one-shot run over the same signal.
pub proof fn transpose_streaming_equals_one_shot(
    w: &StreamableConvTranspose1dWeights,
    x: Tensor,
    chunks: Seq<Tensor>,
    batch: int,
    time: int,
)
    requires
        gapless(w),
        w.causal,
        is_signal(x, batch, w.in_channels as int, time),
        time > 0,
        are_pieces(w, chunks, batch),
        crate::streaming::joined(chunks) == columns(x),
    ensures
        is_signal(w.forward_value(x), batch, w.out_channels as int, time * w.stride),
        transpose_stream(w, chunks) matches Ok((prev, ys)) && ys == mixes(
            w.bias_tensor(),
            w.forward_value(x),
        ),
{
    stream_upsamples(w, chunks, batch);
    let n = time * w.stride + w.overlap();
    raw_mixes(w, x, batch, time);
    narrow_mixes(w.bias_tensor(), w.raw(x), batch, w.out_channels as int, n, 0, n - w.overlap());
    assert(time * w.stride >= 0) by (nonlinear_arith)
        requires
            time >= 0,
    ;
    let (prev, ys) = transpose_stream(w, chunks)->Ok_0;
    assert(ys =~= mixes(w.bias_tensor(), w.forward_value(x)));
}

} // verus!
